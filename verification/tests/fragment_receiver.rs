use bytes::Bytes;
use core::time::Duration;
use lightyear::fragment::{FragmentConstructor, FragmentReceiver};
use lightyear::packet::{FragmentData, FragmentIndex, MessageId, Tick, FRAGMENT_SIZE, MAX_FRAGMENTS};

/// Build a single raw `FragmentData` with arbitrary (possibly invalid) metadata, as a
/// hostile peer could put on the wire.
fn fragment(fragment_id: u64, num_fragments: u64, len: usize) -> FragmentData {
    FragmentData {
        message_id: MessageId(0),
        fragment_id: FragmentIndex(fragment_id),
        num_fragments: FragmentIndex(num_fragments),
        bytes: Bytes::from(vec![1u8; len]),
    }
}

/// Splits a message into fragments of `FRAGMENT_SIZE` bytes (the last one shorter).
fn build_fragments(message_id: MessageId, bytes: &[u8]) -> Vec<FragmentData> {
    let chunks: Vec<&[u8]> = bytes.chunks(FRAGMENT_SIZE).collect();
    let num_fragments = chunks.len() as u64;
    chunks
        .iter()
        .enumerate()
        .map(|(i, chunk)| FragmentData {
            message_id,
            fragment_id: FragmentIndex(i as u64),
            num_fragments: FragmentIndex(num_fragments),
            bytes: Bytes::copy_from_slice(chunk),
        })
        .collect()
}

#[test]
fn test_receiver() {
    let mut receiver = FragmentReceiver::new();
    let num_bytes = (FRAGMENT_SIZE as f32 * 1.5) as usize;
    let message_bytes = Bytes::from(vec![1u8; num_bytes]);
    let mut fragments = build_fragments(MessageId(0), &message_bytes).into_iter();

    assert_eq!(
        receiver.receive_fragment(fragments.next().unwrap(), Tick(0), None),
        None
    );
    assert_eq!(
        receiver.receive_fragment(fragments.next().unwrap(), Tick(1), None),
        Some((Tick(0), message_bytes.clone()))
    );
}

#[test]
fn zero_num_fragments_is_dropped() {
    let mut receiver = FragmentReceiver::new();
    assert_eq!(
        receiver.receive_fragment(fragment(0, 0, 8), Tick(0), None),
        None
    );
}

#[test]
fn fragment_id_out_of_range_is_dropped() {
    let mut receiver = FragmentReceiver::new();
    assert_eq!(
        receiver.receive_fragment(fragment(5, 3, FRAGMENT_SIZE), Tick(0), None),
        None
    );
}

#[test]
fn excessive_num_fragments_is_dropped_before_allocating() {
    let mut receiver = FragmentReceiver::new();
    assert_eq!(
        receiver.receive_fragment(fragment(0, u64::MAX, 8), Tick(0), None),
        None
    );
    assert_eq!(
        receiver.receive_fragment(fragment(0, MAX_FRAGMENTS as u64 + 1, 8), Tick(0), None),
        None
    );
}

#[test]
fn oversized_fragment_payload_is_dropped() {
    let mut receiver = FragmentReceiver::new();
    assert_eq!(
        receiver.receive_fragment(fragment(0, 3, FRAGMENT_SIZE + 1), Tick(0), None),
        None
    );
}

#[test]
fn mismatched_num_fragments_for_same_message_is_dropped() {
    let mut receiver = FragmentReceiver::new();
    assert_eq!(
        receiver.receive_fragment(fragment(0, 3, FRAGMENT_SIZE), Tick(0), None),
        None
    );
    assert_eq!(
        receiver.receive_fragment(fragment(1, 4, FRAGMENT_SIZE), Tick(0), None),
        None
    );
}

fn numbered_message(len: usize) -> Vec<u8> {
    (0..len).map(|i| (i % 251) as u8).collect()
}

#[test]
fn fragments_out_of_order_reassemble_in_index_order() {
    let message = numbered_message(3 * FRAGMENT_SIZE + 17);
    let fragments = build_fragments(MessageId(7), &message);
    assert_eq!(fragments.len(), 4);
    let mut receiver = FragmentReceiver::new();
    let mut fragments: Vec<Option<FragmentData>> = fragments.into_iter().map(Some).collect();
    let order = [2usize, 0, 3, 1];
    let ticks = [Tick(5), Tick(6), Tick(7), Tick(8)];
    for k in 0..3 {
        let f = fragments[order[k]].take().unwrap();
        assert_eq!(receiver.receive_fragment(f, ticks[k], None), None);
    }
    let f = fragments[order[3]].take().unwrap();
    assert_eq!(
        receiver.receive_fragment(f, ticks[3], None),
        Some((Tick(5), Bytes::from(message)))
    );
}

#[test]
fn duplicate_fragment_is_ignored() {
    let message = numbered_message(FRAGMENT_SIZE + 3);
    let fragments = build_fragments(MessageId(1), &message);
    let mut receiver = FragmentReceiver::new();
    let dup = FragmentData {
        message_id: MessageId(1),
        fragment_id: FragmentIndex(0),
        num_fragments: FragmentIndex(2),
        bytes: Bytes::from(vec![9u8; FRAGMENT_SIZE]),
    };
    let mut it = fragments.into_iter();
    assert_eq!(receiver.receive_fragment(it.next().unwrap(), Tick(1), None), None);
    assert_eq!(receiver.receive_fragment(dup, Tick(2), None), None);
    assert_eq!(
        receiver.receive_fragment(it.next().unwrap(), Tick(3), None),
        Some((Tick(1), Bytes::from(message)))
    );
}

#[test]
fn short_non_final_fragment_is_dropped() {
    let mut receiver = FragmentReceiver::new();
    assert_eq!(
        receiver.receive_fragment(fragment(0, 2, FRAGMENT_SIZE - 1), Tick(0), None),
        None
    );
    // The message was started with its count, but the short fragment left no trace:
    // the full-size fragment 0 and the final fragment still complete it.
    assert_eq!(
        receiver.receive_fragment(fragment(0, 2, FRAGMENT_SIZE), Tick(3), None),
        None
    );
    assert_eq!(
        receiver.receive_fragment(fragment(1, 2, 4), Tick(4), None),
        Some((Tick(0), Bytes::from(vec![1u8; FRAGMENT_SIZE + 4])))
    );
}

#[test]
fn single_fragment_message_completes_at_once() {
    let mut receiver = FragmentReceiver::new();
    assert_eq!(
        receiver.receive_fragment(fragment(0, 1, 5), Tick(9), None),
        Some((Tick(9), Bytes::from(vec![1u8; 5])))
    );
    // The completed message left the receiver: the same fragment starts it anew.
    assert_eq!(
        receiver.receive_fragment(fragment(0, 1, 5), Tick(10), None),
        Some((Tick(10), Bytes::from(vec![1u8; 5])))
    );
}

#[test]
fn cleanup_discards_stale_messages_only() {
    let mut receiver = FragmentReceiver::new();
    let stale = FragmentData {
        message_id: MessageId(1),
        fragment_id: FragmentIndex(0),
        num_fragments: FragmentIndex(2),
        bytes: Bytes::from(vec![1u8; FRAGMENT_SIZE]),
    };
    let recent = FragmentData {
        message_id: MessageId(2),
        fragment_id: FragmentIndex(0),
        num_fragments: FragmentIndex(2),
        bytes: Bytes::from(vec![2u8; FRAGMENT_SIZE]),
    };
    let untimed = FragmentData {
        message_id: MessageId(3),
        fragment_id: FragmentIndex(0),
        num_fragments: FragmentIndex(2),
        bytes: Bytes::from(vec![3u8; FRAGMENT_SIZE]),
    };
    assert_eq!(receiver.receive_fragment(stale, Tick(1), Some(Duration::from_millis(99))), None);
    assert_eq!(receiver.receive_fragment(recent, Tick(2), Some(Duration::from_millis(300))), None);
    assert_eq!(receiver.receive_fragment(untimed, Tick(3), None), None);
    receiver.cleanup(Duration::from_millis(100));

    // The stale message was discarded: its last fragment alone does not complete it.
    let last = |id: u16, byte: u8| FragmentData {
        message_id: MessageId(id),
        fragment_id: FragmentIndex(1),
        num_fragments: FragmentIndex(2),
        bytes: Bytes::from(vec![byte; 2]),
    };
    assert_eq!(receiver.receive_fragment(last(1, 1), Tick(4), None), None);
    let mut expected_recent = vec![2u8; FRAGMENT_SIZE];
    expected_recent.extend_from_slice(&[2, 2]);
    assert_eq!(
        receiver.receive_fragment(last(2, 2), Tick(5), None),
        Some((Tick(2), Bytes::from(expected_recent)))
    );
    let mut expected_untimed = vec![3u8; FRAGMENT_SIZE];
    expected_untimed.extend_from_slice(&[3, 3]);
    assert_eq!(
        receiver.receive_fragment(last(3, 3), Tick(6), None),
        Some((Tick(3), Bytes::from(expected_untimed)))
    );
}

#[test]
fn constructor_reports_completion_and_then_an_empty_payload() {
    let mut constructor = FragmentConstructor::new(Tick(4), 2);
    assert_eq!(constructor.receive_fragment(1, &[7, 8], None), None);
    assert_eq!(constructor.receive_fragment(5, &[7, 8], None), None);
    let first = vec![6u8; FRAGMENT_SIZE];
    let mut expected = first.clone();
    expected.extend_from_slice(&[7, 8]);
    assert_eq!(
        constructor.receive_fragment(0, &first, None),
        Some((Tick(4), Bytes::from(expected)))
    );
    assert_eq!(
        constructor.receive_fragment(0, &first, None),
        Some((Tick(4), Bytes::new()))
    );
}

#[test]
fn cleanup_keeps_a_message_received_exactly_at_the_cleanup_time() {
    let mut receiver = FragmentReceiver::new();
    let first = FragmentData {
        message_id: MessageId(4),
        fragment_id: FragmentIndex(0),
        num_fragments: FragmentIndex(2),
        bytes: Bytes::from(vec![4u8; FRAGMENT_SIZE]),
    };
    assert_eq!(receiver.receive_fragment(first, Tick(8), Some(Duration::from_millis(250))), None);
    receiver.cleanup(Duration::from_millis(250));
    let last = FragmentData {
        message_id: MessageId(4),
        fragment_id: FragmentIndex(1),
        num_fragments: FragmentIndex(2),
        bytes: Bytes::from(vec![4u8; 1]),
    };
    assert_eq!(
        receiver.receive_fragment(last, Tick(9), None),
        Some((Tick(8), Bytes::from(vec![4u8; FRAGMENT_SIZE + 1])))
    );
}
