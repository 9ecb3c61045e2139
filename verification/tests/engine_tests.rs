use htsp_client::engine::Data;
use htsp_client::engine::EngineAction;
use htsp_client::engine::EngineCore;
use htsp_client::engine::EngineEvent;
use htsp_client::engine::FrameAssembler;
use htsp_client::engine::StreamCommand;
use htsp_client::engine::StreamContainer;

fn frame(payload: &[u8]) -> Vec<u8> {
    let mut out = (payload.len() as u32).to_be_bytes().to_vec();
    out.extend_from_slice(payload);
    out
}

#[test]
fn assembler_emits_whole_frames() {
    let f1 = frame(b"first");
    let f2 = frame(b"second frame");
    let stream = [f1.clone(), f2.clone()].concat();

    let mut assembler = FrameAssembler::new();
    let frames = assembler.push(&stream);
    assert_eq!(vec![f1, f2], frames);
    assert!(assembler.buf.is_empty());
}

#[test]
fn assembler_survives_arbitrary_splits() {
    let f1 = frame(b"alpha");
    let f2 = frame(&[0u8; 40]);
    let f3 = frame(b"");
    let stream = [f1.clone(), f2.clone(), f3.clone()].concat();
    let expected = vec![f1, f2, f3];

    // One byte at a time.
    let mut assembler = FrameAssembler::new();
    let mut collected: Vec<Vec<u8>> = vec![];
    for b in &stream {
        collected.extend(assembler.push(std::slice::from_ref(b)));
    }
    assert_eq!(expected, collected);
    assert!(assembler.buf.is_empty());

    // Every possible single split point.
    for cut in 0..=stream.len() {
        let mut assembler = FrameAssembler::new();
        let mut collected: Vec<Vec<u8>> = vec![];
        collected.extend(assembler.push(&stream[..cut]));
        collected.extend(assembler.push(&stream[cut..]));
        assert_eq!(expected, collected, "split at {} broke a frame", cut);
    }
}

#[test]
fn assembler_buffers_partial_frames() {
    let f = frame(b"payload");
    let mut assembler = FrameAssembler::new();
    assert!(assembler.push(&f[..3]).is_empty());
    assert!(assembler.push(&f[3..6]).is_empty());
    let frames = assembler.push(&f[6..]);
    assert_eq!(vec![f], frames);
}

#[test]
fn send_ordering_scenario() {
    let a = frame(b"A");
    let b = frame(&vec![7u8; 500]);
    let c = frame(b"C");

    let mut engine = EngineCore::new();
    let mut writes: Vec<Vec<u8>> = vec![];
    for payload in [a.clone(), b.clone(), c.clone()] {
        for action in engine.handle_event(EngineEvent::Command(StreamCommand::Send(payload))) {
            match action {
                EngineAction::Write(bytes) => writes.push(bytes),
                other => panic!("unexpected action {:?}", other),
            }
        }
    }
    assert_eq!(vec![a, b, c], writes);
}

#[test]
fn stop_rejects_later_sends() {
    let mut engine = EngineCore::new();
    let actions = engine.handle_event(EngineEvent::Command(StreamCommand::Stop));
    assert_eq!(vec![EngineAction::Shutdown], actions);
    let actions =
        engine.handle_event(EngineEvent::Command(StreamCommand::Send(frame(b"late"))));
    assert_eq!(vec![EngineAction::RejectSend], actions);
}

#[test]
fn closed_socket_shuts_the_engine_down() {
    let mut engine = EngineCore::new();
    let actions = engine.handle_event(EngineEvent::Closed);
    assert_eq!(vec![EngineAction::Shutdown], actions);
}

#[test]
fn received_bytes_deliver_complete_frames() {
    let f = frame(b"inbound");
    let mut engine = EngineCore::new();
    let actions = engine.handle_event(EngineEvent::Received(f[..5].to_vec()));
    assert!(actions.is_empty());
    let actions = engine.handle_event(EngineEvent::Received(f[5..].to_vec()));
    assert_eq!(vec![EngineAction::Deliver(Data::Bin(f))], actions);
}

#[test]
fn container_remembers_its_address() {
    let c = StreamContainer::create("localhost:9982".to_string());
    assert_eq!("localhost:9982", c.address);
}
