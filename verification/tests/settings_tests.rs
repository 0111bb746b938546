use longhorn::parse::Error;
use longhorn::settings::Settings;
use longhorn::text::int_to_text;

#[test]
fn settings_defaults() {
    let s = Settings::new();
    assert_eq!(s.history_len(), 50);
    assert_eq!(s.library_paths(), vec!["~/Music".to_string()]);
    assert_eq!(s.top_songs_len(), 100);
    assert_eq!(s.top_albums_len(), 50);
    assert_eq!(s.top_artists_len(), 25);
}

#[test]
fn settings_setters() {
    let mut s = Settings::new();
    s.set_history_len(7);
    s.add_library_path("/music".to_string());
    s.set_top_songs_len(1);
    s.set_top_albums_len(2);
    s.set_top_artists_len(3);
    assert_eq!(s.history_len(), 7);
    assert_eq!(s.library_paths(), vec!["~/Music".to_string(), "/music".to_string()]);
    assert_eq!((s.top_songs_len(), s.top_albums_len(), s.top_artists_len()), (1, 2, 3));
}

#[test]
fn reading_starts_from_the_default_file() {
    let mut s = Settings::new();
    let mut read = s.begin_read_config(None);
    assert!(s.library_paths().is_empty());
    assert_eq!(read.next_path(), Some("./Longhorn.conf".to_string()));
    assert_eq!(read.next_path(), None);
}

#[test]
fn reading_starts_from_a_given_file() {
    let mut s = Settings::new();
    let mut read = s.begin_read_config(Some("my.conf"));
    assert_eq!(read.next_path(), Some("my.conf".to_string()));
}

#[test]
fn named_files_are_pending_once_and_errors_are_reported() {
    let mut s = Settings::new();
    let mut read = s.begin_read_config(Some("main.conf"));
    let path = read.next_path().unwrap();
    read.file_parsed(
        &path,
        vec!["a.conf".to_string(), "b.conf".to_string(), "a.conf".to_string()],
        vec![Error::new(3, "Missing Assignment Token".to_string())],
    );
    read.file_missing("b.conf");
    read.file_unreadable("c.conf");
    assert_eq!(
        read.config_errors(),
        vec![
            "Missing Assignment Token on Line 3 of main.conf".to_string(),
            "No File Found At b.conf".to_string(),
            "UNEXPECTED ERROR ENCOUNTERED IN c.conf".to_string(),
        ]
    );
    assert_eq!(read.next_path(), Some("b.conf".to_string()));
    assert_eq!(read.next_path(), Some("a.conf".to_string()));
    assert_eq!(read.next_path(), None);
}

#[test]
fn pending_files_already_named_stay_where_first_named() {
    let mut s = Settings::new();
    let mut read = s.begin_read_config(Some("x.conf"));
    read.file_parsed("y.conf", vec!["z.conf".to_string(), "x.conf".to_string()], vec![]);
    assert_eq!(read.next_path(), Some("z.conf".to_string()));
    assert_eq!(read.next_path(), Some("x.conf".to_string()));
    assert_eq!(read.next_path(), None);
}

#[test]
fn integers_are_written_in_decimal() {
    assert_eq!(int_to_text(0), "0");
    assert_eq!(int_to_text(7), "7");
    assert_eq!(int_to_text(-5), "-5");
    assert_eq!(int_to_text(1200), "1200");
    assert_eq!(int_to_text(i32::MAX), "2147483647");
    assert_eq!(int_to_text(i32::MIN), "-2147483648");
}

#[test]
fn error_accessors() {
    let e = Error::new(12, "Bad".to_string());
    assert_eq!(e.get_line(), 12);
    assert_eq!(e.get_message(), "Bad");
}
