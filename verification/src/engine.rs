//! Pure logic of the connection engine: reassembling length-prefixed frames
//! from a byte stream that arrives in arbitrary pieces, and deciding what
//! one engine step does with a command or with newly arrived bytes.
//!
//! The engine owns one socket through a single task; callers reach it only
//! through a command channel (outbound) and a data channel (inbound).  The
//! I/O itself — connecting, reading, writing, waiting — lives outside this
//! library; what stands here is every decision the engine takes, with the
//! laws that no frame is ever torn or merged and that sends reach the wire
//! in the order they were issued.

use vstd::prelude::*;

use crate::codec::bytes2num;
use crate::codec::push_bytes;
use crate::wire_format::spec_be_num;
use vstd::slice::slice_subrange;
use vstd::slice::slice_to_vec;

verus! {

broadcast use vstd::std_specs::vec::group_vec_axioms, vstd::seq::group_seq_axioms;

/// A whole frame sits at the head of `s`: a 4-byte big-endian length and at
/// least that many bytes behind it.
pub open spec fn spec_frame_ready(s: Seq<u8>) -> bool {
    s.len() >= 4 && s.len() >= 4 + spec_be_num(s.subrange(0, 4))
}

/// The byte length of the frame at the head of `s`, prefix included.
pub open spec fn spec_head_len(s: Seq<u8>) -> int {
    4 + spec_be_num(s.subrange(0, 4)) as int
}

/// Every complete frame at the head of `s`, in arrival order, each exactly
/// its 4-byte length prefix and the declared run of bytes.
pub open spec fn spec_frames(s: Seq<u8>) -> Seq<Seq<u8>>
    decreases s.len(),
{
    if !spec_frame_ready(s) {
        Seq::empty()
    } else {
        seq![s.subrange(0, spec_head_len(s))] + spec_frames(
            s.subrange(spec_head_len(s), s.len() as int),
        )
    }
}

/// What remains of `s` after every complete frame: a partial frame, kept
/// until the rest of it arrives.
pub open spec fn spec_rest(s: Seq<u8>) -> Seq<u8>
    decreases s.len(),
{
    if !spec_frame_ready(s) {
        s
    } else {
        spec_rest(s.subrange(spec_head_len(s), s.len() as int))
    }
}

/// What remains after extracting frames never holds a complete frame.
pub proof fn lemma_rest_not_ready(s: Seq<u8>)
    ensures
        !spec_frame_ready(spec_rest(s)),
    decreases s.len(),
{
    if spec_frame_ready(s) {
        lemma_rest_not_ready(s.subrange(spec_head_len(s), s.len() as int));
    }
}

/// Splitting a byte stream changes nothing: the frames of `s + t` are the
/// frames of `s` followed by the frames of `s`'s leftover joined with `t`,
/// and the leftovers agree.  Hence feeding a stream in pieces, at any split
/// points, yields exactly the frames of the whole stream.
pub proof fn lemma_frames_split(s: Seq<u8>, t: Seq<u8>)
    ensures
        spec_frames(s + t) == spec_frames(s) + spec_frames(spec_rest(s) + t),
        spec_rest(s + t) == spec_rest(spec_rest(s) + t),
    decreases s.len(),
{
    if spec_frame_ready(s) {
        assert((s + t).subrange(0, 4) =~= s.subrange(0, 4));
        assert(spec_frame_ready(s + t));
        assert(spec_head_len(s + t) == spec_head_len(s));
        assert((s + t).subrange(0, spec_head_len(s + t)) =~= s.subrange(0, spec_head_len(s)));
        let s2 = s.subrange(spec_head_len(s), s.len() as int);
        assert((s + t).subrange(spec_head_len(s + t), (s + t).len() as int) =~= s2 + t);
        lemma_frames_split(s2, t);
        assert(seq![s.subrange(0, spec_head_len(s))] + (spec_frames(s2) + spec_frames(
            spec_rest(s2) + t,
        )) =~= (seq![s.subrange(0, spec_head_len(s))] + spec_frames(s2)) + spec_frames(
            spec_rest(s2) + t,
        ));
    } else {
        assert(spec_rest(s) + t =~= s + t);
        assert(spec_frames(s) + spec_frames(s + t) =~= spec_frames(s + t));
    }
}

/// The concatenation of a sequence of byte chunks, in order.
pub open spec fn spec_concat_chunks(chunks: Seq<Seq<u8>>) -> Seq<u8>
    decreases chunks.len(),
{
    if chunks.len() == 0 {
        Seq::empty()
    } else {
        chunks.first() + spec_concat_chunks(chunks.drop_first())
    }
}

/// One assembler step at the model level: the frames completed by a chunk,
/// and the bytes kept for later.
pub open spec fn spec_assemble_step(buf: Seq<u8>, chunk: Seq<u8>) -> (Seq<Seq<u8>>, Seq<u8>) {
    (spec_frames(buf + chunk), spec_rest(buf + chunk))
}

/// All frames an assembler emits when the chunks are fed one at a time,
/// with the bytes left buffered at the end.
pub open spec fn spec_assemble_all(buf: Seq<u8>, chunks: Seq<Seq<u8>>) -> (Seq<Seq<u8>>, Seq<u8>)
    decreases chunks.len(),
{
    if chunks.len() == 0 {
        (Seq::empty(), buf)
    } else {
        let step = spec_assemble_step(buf, chunks.first());
        let rest = spec_assemble_all(step.1, chunks.drop_first());
        (step.0 + rest.0, rest.1)
    }
}

/// Frame integrity: however a byte stream is split into chunks, feeding the
/// chunks one at a time yields exactly one complete frame per declared
/// length — the same frames, in the same order, as the unsplit stream —
/// never a short or concatenated frame.
pub proof fn lemma_frame_integrity(buf: Seq<u8>, chunks: Seq<Seq<u8>>)
    requires
        !spec_frame_ready(buf),
    ensures
        spec_assemble_all(buf, chunks).0 == spec_frames(buf + spec_concat_chunks(chunks)),
        spec_assemble_all(buf, chunks).1 == spec_rest(buf + spec_concat_chunks(chunks)),
    decreases chunks.len(),
{
    if chunks.len() == 0 {
        assert(buf + spec_concat_chunks(chunks) =~= buf);
    } else {
        let c0 = chunks.first();
        let b1 = spec_rest(buf + c0);
        lemma_rest_not_ready(buf + c0);
        lemma_frame_integrity(b1, chunks.drop_first());
        lemma_frames_split(buf + c0, spec_concat_chunks(chunks.drop_first()));
        assert((buf + c0) + spec_concat_chunks(chunks.drop_first()) =~= buf + spec_concat_chunks(
            chunks,
        ));
    }
}

/// Reassembles length-prefixed frames from a byte stream that arrives in
/// pieces of any size.  Partial frames stay buffered; only whole frames,
/// prefix included, ever come out.
#[derive(Debug)]
pub struct FrameAssembler {
    pub buf: Vec<u8>,
}

impl FrameAssembler {
    /// No complete frame is ever left sitting in the buffer.
    pub open spec fn wf(&self) -> bool {
        !spec_frame_ready(self.buf@)
    }

    /// A fresh assembler with nothing buffered.
    pub fn new() -> (r: Self)
        ensures
            r.wf(),
            r.buf@ == Seq::<u8>::empty(),
    {
        let r = FrameAssembler { buf: Vec::new() };
        proof {
            assert(!spec_frame_ready(r.buf@));
        }
        r
    }

    /// Feeds newly arrived bytes in and hands back every frame they
    /// complete, in arrival order, each exactly its declared length.
    pub fn push(&mut self, chunk: &[u8]) -> (frames: Vec<Vec<u8>>)
        requires
            old(self).wf(),
        ensures
            final(self).wf(),
            frames.deep_view() == spec_frames(old(self).buf@ + chunk@),
            final(self).buf@ == spec_rest(old(self).buf@ + chunk@),
    {
        let ghost start = old(self).buf@ + chunk@;
        push_bytes(&mut self.buf, chunk);
        let mut frames: Vec<Vec<u8>> = Vec::new();
        proof {
            assert(frames.deep_view() =~= Seq::<Seq<u8>>::empty());
            assert(Seq::<Seq<u8>>::empty() + spec_frames(self.buf@) =~= spec_frames(self.buf@));
        }
        loop
            invariant
                frames.deep_view() + spec_frames(self.buf@) == spec_frames(start),
                spec_rest(self.buf@) == spec_rest(start),
            ensures
                !spec_frame_ready(self.buf@),
            decreases self.buf@.len(),
        {
            if self.buf.len() < 4 {
                break ;
            }
            let declared = bytes2num(slice_subrange(self.buf.as_slice(), 0, 4));
            if ((self.buf.len() - 4) as u64) < declared {
                break ;
            }
            proof {
                assert(spec_frame_ready(self.buf@));
            }
            let total = 4 + declared as usize;
            let frame = slice_to_vec(slice_subrange(self.buf.as_slice(), 0, total));
            let remaining = slice_to_vec(
                slice_subrange(self.buf.as_slice(), total, self.buf.len()),
            );
            let ghost oldbuf = self.buf@;
            let ghost oldframes = frames.deep_view();
            self.buf = remaining;
            proof {
                assert(frame@ == oldbuf.subrange(0, spec_head_len(oldbuf)));
                assert(self.buf@ == oldbuf.subrange(spec_head_len(oldbuf), oldbuf.len() as int));
                assert(spec_frames(oldbuf) == seq![frame@] + spec_frames(self.buf@));
            }
            frames.push(frame);
            proof {
                assert(frame.deep_view() =~= frame@);
                assert(frames.deep_view() =~= oldframes.push(frame@));
                assert(oldframes + (seq![frame@] + spec_frames(self.buf@)) =~= oldframes.push(
                    frame@,
                ) + spec_frames(self.buf@));
            }
        }
        proof {
            assert(!spec_frame_ready(self.buf@));
            assert(frames.deep_view() + Seq::<Seq<u8>>::empty() =~= frames.deep_view());
        }
        frames
    }
}

/// A command callers enqueue for the engine's own task.
#[derive(Debug, PartialEq)]
pub enum StreamCommand {
    /// Transmit a fully-formed, already length-prefixed payload.
    Send(Vec<u8>),
    /// Shut the connection down after draining any in-flight write.
    Stop,
}

/// One unit of inbound data the engine hands to its consumer.
#[derive(Debug, PartialEq)]
pub enum Data {
    /// A complete frame, exactly as declared by its 4-byte length prefix.
    Bin(Vec<u8>),
}

/// Remembers where an engine is to connect.
#[derive(Debug)]
pub struct StreamContainer {
    pub address: String,
}

impl StreamContainer {
    /// Holds the address for a later connection.
    pub fn create(address: String) -> (r: Self)
        ensures
            r.address@ == address@,
    {
        StreamContainer { address }
    }
}

/// Model of what reaches the engine's loop.
pub ghost enum SpecEvent {
    Send(Seq<u8>),
    Stop,
    Received(Seq<u8>),
    Closed,
}

/// Model of what the engine's loop must do next.
pub ghost enum SpecAction {
    Write(Seq<u8>),
    Deliver(Seq<u8>),
    Shutdown,
    RejectSend,
}

/// Model of the engine's own state: the bytes of a partial inbound frame,
/// and whether shutdown has begun.
pub ghost struct SpecEngine {
    pub buffered: Seq<u8>,
    pub stopping: bool,
}

/// What reaches the engine's loop: a caller's command, bytes read off the
/// socket, or the socket's end.
#[derive(Debug, PartialEq)]
pub enum EngineEvent {
    Command(StreamCommand),
    Received(Vec<u8>),
    Closed,
}

/// What the engine's loop must now do: write a payload to the socket, hand
/// a complete frame to the consumer, close the connection, or report a send
/// after shutdown as failed.
#[derive(Debug, PartialEq)]
pub enum EngineAction {
    Write(Vec<u8>),
    Deliver(Data),
    Shutdown,
    RejectSend,
}

impl EngineEvent {
    /// The model of this event.
    pub open spec fn deep_view(&self) -> SpecEvent {
        match self {
            EngineEvent::Command(StreamCommand::Send(p)) => SpecEvent::Send(p@),
            EngineEvent::Command(StreamCommand::Stop) => SpecEvent::Stop,
            EngineEvent::Received(b) => SpecEvent::Received(b@),
            EngineEvent::Closed => SpecEvent::Closed,
        }
    }
}

impl EngineAction {
    /// The model of this action.
    pub open spec fn deep_view(&self) -> SpecAction {
        match self {
            EngineAction::Write(p) => SpecAction::Write(p@),
            EngineAction::Deliver(Data::Bin(f)) => SpecAction::Deliver(f@),
            EngineAction::Shutdown => SpecAction::Shutdown,
            EngineAction::RejectSend => SpecAction::RejectSend,
        }
    }
}

/// The models of a run of actions, in order.
pub open spec fn actions_view(acts: Seq<EngineAction>) -> Seq<SpecAction> {
    Seq::new(acts.len(), |i: int| acts[i].deep_view())
}

/// One frame-delivery action per complete frame, in arrival order.
pub open spec fn spec_deliver_all(frames: Seq<Seq<u8>>) -> Seq<SpecAction> {
    Seq::new(frames.len(), |i: int| SpecAction::Deliver(frames[i]))
}

/// What one engine step does.  A send is written whole, in arrival order,
/// unless shutdown has begun, in which case it is rejected; a stop begins
/// shutdown; received bytes complete zero or more frames, each delivered
/// whole; the socket's end begins shutdown.
pub open spec fn spec_step(s: SpecEngine, ev: SpecEvent) -> (SpecEngine, Seq<SpecAction>) {
    match ev {
        SpecEvent::Send(p) => if s.stopping {
            (s, seq![SpecAction::RejectSend])
        } else {
            (s, seq![SpecAction::Write(p)])
        },
        SpecEvent::Stop => (SpecEngine { stopping: true, ..s }, seq![SpecAction::Shutdown]),
        SpecEvent::Received(b) => (
            SpecEngine { buffered: spec_rest(s.buffered + b), ..s },
            spec_deliver_all(spec_frames(s.buffered + b)),
        ),
        SpecEvent::Closed => (SpecEngine { stopping: true, ..s }, seq![SpecAction::Shutdown]),
    }
}

/// The decisions of one connection's engine task: all of the state the loop
/// keeps between events, with the step function that drives it.
#[derive(Debug)]
pub struct EngineCore {
    pub assembler: FrameAssembler,
    pub stopping: bool,
}

impl EngineCore {
    /// The model of this engine state.
    pub open spec fn deep_view(&self) -> SpecEngine {
        SpecEngine { buffered: self.assembler.buf@, stopping: self.stopping }
    }

    /// The inbound buffer never holds a complete frame between steps.
    pub open spec fn wf(&self) -> bool {
        self.assembler.wf()
    }

    /// A fresh engine: nothing buffered, not stopping.
    pub fn new() -> (r: Self)
        ensures
            r.wf(),
            r.deep_view() == (SpecEngine { buffered: Seq::<u8>::empty(), stopping: false }),
    {
        EngineCore { assembler: FrameAssembler::new(), stopping: false }
    }

    /// Takes one event and returns the actions the loop must perform, as
    /// [`spec_step`] says.
    pub fn handle_event(&mut self, event: EngineEvent) -> (actions: Vec<EngineAction>)
        requires
            old(self).wf(),
        ensures
            final(self).wf(),
            final(self).deep_view() == spec_step(old(self).deep_view(), event.deep_view()).0,
            actions_view(actions@) == spec_step(old(self).deep_view(), event.deep_view()).1,
    {
        match event {
            EngineEvent::Command(StreamCommand::Send(p)) => {
                let mut actions: Vec<EngineAction> = Vec::new();
                if self.stopping {
                    actions.push(EngineAction::RejectSend);
                    proof {
                        assert(actions_view(actions@) =~= seq![SpecAction::RejectSend]);
                    }
                } else {
                    let ghost pv = p@;
                    actions.push(EngineAction::Write(p));
                    proof {
                        assert(actions_view(actions@) =~= seq![SpecAction::Write(pv)]);
                    }
                }
                actions
            }
            EngineEvent::Command(StreamCommand::Stop) => {
                self.stopping = true;
                let mut actions: Vec<EngineAction> = Vec::new();
                actions.push(EngineAction::Shutdown);
                proof {
                    assert(actions_view(actions@) =~= seq![SpecAction::Shutdown]);
                }
                actions
            }
            EngineEvent::Received(b) => {
                let ghost stream = self.assembler.buf@ + b@;
                let frames = self.assembler.push(b.as_slice());
                let ghost fvs = spec_frames(stream);
                let mut actions: Vec<EngineAction> = Vec::new();
                let mut i: usize = 0;
                while i < frames.len()
                    invariant
                        i <= frames@.len(),
                        frames.deep_view() == fvs,
                        frames@.len() == fvs.len(),
                        actions@.len() == i,
                        forall|j: int| 0 <= j < i ==> #[trigger] actions@[j].deep_view()
                            == SpecAction::Deliver(fvs[j]),
                    decreases frames@.len() - i,
                {
                    let f = frames[i].clone();
                    proof {
                        assert(f@ =~= frames@[i as int]@);
                        assert(frames.deep_view()[i as int] == frames@[i as int].deep_view());
                        assert(frames@[i as int].deep_view() =~= frames@[i as int]@);
                    }
                    actions.push(EngineAction::Deliver(Data::Bin(f)));
                    i = i + 1;
                }
                proof {
                    assert(actions_view(actions@) =~= spec_deliver_all(fvs));
                }
                actions
            }
            EngineEvent::Closed => {
                self.stopping = true;
                let mut actions: Vec<EngineAction> = Vec::new();
                actions.push(EngineAction::Shutdown);
                proof {
                    assert(actions_view(actions@) =~= seq![SpecAction::Shutdown]);
                }
                actions
            }
        }
    }
}

/// Send ordering: payloads enqueued in order A, B, C on an engine that is
/// not shutting down are emitted as three whole writes in exactly that
/// order, with nothing interleaved between them.
pub proof fn lemma_send_ordering(s: SpecEngine, a: Seq<u8>, b: Seq<u8>, c: Seq<u8>)
    requires
        !s.stopping,
    ensures
        ({
            let (s1, acts1) = spec_step(s, SpecEvent::Send(a));
            let (s2, acts2) = spec_step(s1, SpecEvent::Send(b));
            let (s3, acts3) = spec_step(s2, SpecEvent::Send(c));
            acts1 + acts2 + acts3 =~= seq![
                SpecAction::Write(a),
                SpecAction::Write(b),
                SpecAction::Write(c),
            ]
        }),
{
}

} // verus!
