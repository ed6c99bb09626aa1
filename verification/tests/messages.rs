use estros::messages::{Message, MessageError, MessageStore};

const GREETING: &[u8] = b"this is a message which is being read";

#[test]
fn new_store_holds_the_greeting() {
    let mut store = MessageStore::new();
    let all = store.read_message(0, 1000).unwrap();
    assert_eq!(all, GREETING.to_vec());
    // the read reached the end, so the message is gone
    assert_eq!(store.read_message(0, 1).err(), Some(MessageError::InvalidMid));
}

#[test]
fn reads_in_chunks_concatenate() {
    let mut store = MessageStore::new();
    let a = store.read_message(0, 4).unwrap();
    let b = store.read_message(0, 10).unwrap();
    assert_eq!(a, b"this".to_vec());
    assert_eq!(b, b" is a mess".to_vec());
    let rest = store.read_message(0, usize::MAX).unwrap();
    let mut joined = a.clone();
    joined.extend(b);
    joined.extend(rest);
    assert_eq!(joined, GREETING.to_vec());
    assert!(store.read_message(0, 1).is_err());
}

#[test]
fn exact_length_read_drops_the_message() {
    let mut store = MessageStore::new();
    let all = store.read_message(0, GREETING.len()).unwrap();
    assert_eq!(all.len(), GREETING.len());
    assert!(store.read_message(0, 0).is_err());
}

#[test]
fn short_read_keeps_the_message() {
    let mut store = MessageStore::new();
    let first = store.read_message(0, GREETING.len() - 1).unwrap();
    assert_eq!(first.len(), GREETING.len() - 1);
    let last = store.read_message(0, 5).unwrap();
    assert_eq!(last, b"d".to_vec());
    assert!(store.read_message(0, 5).is_err());
}

#[test]
fn zero_length_read_of_nonempty_message() {
    let mut store = MessageStore::new();
    assert_eq!(store.read_message(0, 0).unwrap(), Vec::<u8>::new());
    assert_eq!(store.read_message(0, 3).unwrap(), b"thi".to_vec());
}

#[test]
fn pushed_messages_take_consecutive_ids() {
    let mut store = MessageStore::new();
    store.push_message(Message::new(vec![1, 2, 3]));
    store.push_message(Message::new(vec![4]));
    // the first push took id 0, replacing the greeting
    assert_eq!(store.read_message(0, 10).unwrap(), vec![1, 2, 3]);
    assert_eq!(store.read_message(1, 10).unwrap(), vec![4]);
    assert!(store.read_message(2, 10).is_err());
}

#[test]
fn unknown_message_id_is_an_error() {
    let mut store = MessageStore::new();
    assert_eq!(store.read_message(42, 1), Err(MessageError::InvalidMid));
    assert_eq!(MessageError::InvalidMid.message(), "Invalid Mid");
}

#[test]
fn message_reads_report_emptiness() {
    let mut m = Message::new(vec![1, 2, 3, 4, 5]);
    assert_eq!(m.len(), 5);
    assert_eq!(m.remaining(), 5);
    assert_eq!(m.read_bytes(2), (vec![1, 2], false));
    assert_eq!(m.remaining(), 3);
    assert_eq!(m.read_bytes(3), (vec![3, 4, 5], true));
    assert_eq!(m.remaining(), 0);
    assert_eq!(m.read_bytes(3), (vec![], true));
    assert_eq!(m.len(), 5);
}

#[test]
fn default_store_is_empty() {
    let mut store = MessageStore::default();
    assert_eq!(store.read_message(0, 4), Err(MessageError::InvalidMid));
    store.push_message(Message::new(vec![1, 2, 3]));
    assert_eq!(store.read_message(0, 2), Ok(vec![1, 2]));
    assert_eq!(store.read_message(0, 2), Ok(vec![3]));
    assert_eq!(store.read_message(0, 2), Err(MessageError::InvalidMid));
}
