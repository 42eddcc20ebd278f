use libafl::corpus::{InMemoryCorpus, Testcase};
use libafl::error::Error;

#[test]
fn error_messages() {
    assert_eq!(Error::Serialize("x".to_string()).message(), "Error in Serialization: `x`");
    assert_eq!(Error::IllegalState("bad".to_string()).message(), "Illegal state: bad");
    assert_eq!(Error::ShuttingDown.message(), "Shutting down!");
    assert_eq!(Error::KeyNotFound("k".to_string()).message(), "Key `k` not in Corpus");
    assert_eq!(Error::Empty("corpus".to_string()).message(), "No items in corpus");
    assert_eq!(Error::Compression.message(), "Error in decompression");
    assert_eq!(Error::Unknown("u".to_string()).message(), "Unknown error: u");
}

#[test]
fn corpus_operations() {
    let mut c = InMemoryCorpus::new();
    assert_eq!(c.add(Testcase::new(vec![1])), 0);
    assert_eq!(c.add(Testcase::new(vec![2])), 1);
    assert_eq!(c.add(Testcase::new(vec![3])), 2);
    let old = c.replace(1, Testcase::new(vec![9])).unwrap();
    assert_eq!(old.input(), &vec![2u8]);
    let removed = c.remove(0).unwrap();
    assert_eq!(removed.input(), &vec![1u8]);
    assert_eq!(c.count(), 2);
    assert_eq!(c.get(0).unwrap().input(), &vec![9u8]);
    assert!(matches!(c.get(2), Err(Error::KeyNotFound(_))));
    assert!(matches!(c.remove(5), Err(Error::KeyNotFound(_))));
}

#[test]
fn testcase_fields() {
    let mut t = Testcase::new(vec![1, 2]);
    assert!(t.filename().is_none());
    t.set_filename(Some("id_0".to_string()));
    assert_eq!(t.filename().unwrap(), "id_0");
    t.set_fuzz_level(3);
    assert_eq!(t.fuzz_level(), 3);
    assert_eq!(t.load_input(), vec![1, 2]);
    assert!(t.exec_time().is_none());
}
