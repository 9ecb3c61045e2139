use htsp_client::htsp::serialize;
use htsp_client::htsp::Request;
use htsp_client::server::request_frame;
use htsp_client::server::CorrelationTable;
use htsp_client::server::SequenceCounter;

#[test]
fn sequence_numbers_cover_one_to_n() {
    let mut counter = SequenceCounter::new();
    let n = 100;
    let mut seen: Vec<u64> = vec![];
    for _ in 0..n {
        seen.push(counter.get_next_sequence_number());
    }
    // Distinct, no gaps: exactly 1..=n in order of issue.
    let expected: Vec<u64> = (1..=n).collect();
    assert_eq!(expected, seen);
    assert_eq!(n, counter.next_sequence_number);
}

#[test]
fn first_sequence_number_is_one() {
    let mut counter = SequenceCounter::new();
    assert_eq!(0, counter.next_sequence_number);
    assert_eq!(1, counter.get_next_sequence_number());
    assert_eq!(2, counter.get_next_sequence_number());
}

fn hello_request() -> Request {
    Request::Hello {
        htsp_version: 25,
        client_name: "client".to_string(),
        client_version: "0.1".to_string(),
    }
}

#[test]
fn request_frame_without_seq_matches_serialize() {
    let mut direct: Vec<u8> = vec![];
    serialize(&hello_request(), &mut direct).unwrap();
    let framed = request_frame(&hello_request(), None).unwrap();
    assert_eq!(direct, framed);
}

#[test]
fn request_frame_appends_the_seq_field() {
    let bare = request_frame(&hello_request(), None).unwrap();
    let with_seq = request_frame(&hello_request(), Some(7)).unwrap();

    // The body grows by exactly one record: tag 2, name "seq", one byte 7.
    let mut seq_record = vec![2u8, 3, 0, 0, 0, 1];
    seq_record.extend_from_slice(b"seq");
    seq_record.push(7);
    assert_eq!(bare[4..].to_vec(), with_seq[4..bare.len()].to_vec());
    assert_eq!(seq_record, with_seq[bare.len()..].to_vec());

    // And the total length in front accounts for it.
    let declared = u32::from_be_bytes([with_seq[0], with_seq[1], with_seq[2], with_seq[3]]);
    assert_eq!(with_seq.len() as u32 - 4, declared);
}

#[test]
fn correlation_table_matches_replies_to_requests() {
    let mut table = CorrelationTable::new();
    assert!(table.register(1));
    assert!(table.register(2));
    assert!(table.register(3));
    // A number cannot wait twice.
    assert!(!table.register(2));
    assert!(table.outstanding(2));

    // Replies may arrive in any order; each claims exactly one caller.
    assert!(table.resolve(2));
    assert!(!table.outstanding(2));
    assert!(!table.resolve(2));
    assert!(table.resolve(3));
    assert!(table.resolve(1));
    assert!(!table.resolve(1));
    assert!(table.pending.is_empty());
}
