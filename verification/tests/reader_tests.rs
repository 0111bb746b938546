use longhorn::reader::Reader;

#[test]
fn reader_defaults_and_read() {
    let mut r = Reader::new();
    assert_eq!(r.history_len(), 50);
    assert_eq!(r.library_paths(), vec!["~/Music"]);
    r.read();
    assert_eq!(r.history_len(), -1);
    assert_eq!(r.library_paths(), vec!["~/Music"]);
}
