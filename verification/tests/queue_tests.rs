use longhorn::queue::{Element, Queue};
use longhorn::song::{Link, Song};

fn song<'a>(title: &'a str, album: &'a str) -> Song<'a> {
    Song { title, album, artist: "Artist", link: Link::Spotify("link") }
}

fn titles(q: &Queue) -> Vec<String> {
    let mut out = vec![];
    let mut i = 1;
    while let Some(s) = q.relative_song(-i) {
        out.insert(0, s.title.to_string());
        i += 1;
    }
    if let Some(s) = q.current_song() {
        out.push(format!("[{}]", s.title));
    }
    let mut i = 1;
    while let Some(s) = q.relative_song(i) {
        out.push(s.title.to_string());
        i += 1;
    }
    out
}

#[test]
fn new_queue_is_empty() {
    let q = Queue::new(10);
    assert!(q.start_song().is_none());
    assert!(q.current_song().is_none());
    assert!(q.end_song().is_none());
    assert!(q.relative_song(0).is_none());
    assert!(q.relative_song(1).is_none());
    assert!(q.relative_song(-1).is_none());
}

#[test]
fn added_after_current_is_next() {
    let mut q = Queue::new(10);
    q.add_song_after_current(song("1", "A"));
    q.add_song_after_current(song("3", "A"));
    q.add_song_after_current(song("2", "A"));
    assert_eq!(titles(&q), vec!["[1]", "2", "3"]);
    q.advance_song();
    assert_eq!(q.current_song().unwrap().title, "2");
    assert_eq!(titles(&q), vec!["1", "[2]", "3"]);
}

#[test]
fn block_after_current_keeps_its_order() {
    let mut q = Queue::new(10);
    q.add_song_block_after_queue(vec![song("1", "A"), song("2", "A")]);
    q.add_song_block_after_current(vec![song("x", "B"), song("y", "B")]);
    assert_eq!(titles(&q), vec!["[1]", "x", "y", "2"]);
    assert_eq!(q.start_song().unwrap().title, "1");
    assert_eq!(q.end_song().unwrap().title, "2");
}

#[test]
fn block_after_album_follows_the_album() {
    let mut q = Queue::new(10);
    q.add_song_block_after_queue(vec![song("a1", "A"), song("a2", "A"), song("b1", "B")]);
    q.add_song_block_after_album(vec![song("c1", "C"), song("c2", "C")]);
    assert_eq!(titles(&q), vec!["[a1]", "a2", "c1", "c2", "b1"]);
    q.add_song_after_album(song("d1", "D"));
    assert_eq!(titles(&q), vec!["[a1]", "a2", "d1", "c1", "c2", "b1"]);
}

#[test]
fn adding_to_an_empty_queue_makes_the_first_song_current() {
    let mut q = Queue::new(10);
    q.add_song_block_after_album(vec![song("1", "A"), song("2", "A")]);
    assert_eq!(titles(&q), vec!["[1]", "2"]);
    let mut q = Queue::new(10);
    q.add_song_after_queue(song("1", "A"));
    assert_eq!(titles(&q), vec!["[1]"]);
}

#[test]
fn advance_album_skips_to_the_next_album() {
    let mut q = Queue::new(10);
    q.add_song_block_after_queue(vec![song("a1", "A"), song("a2", "A"), song("b1", "B"), song("b2", "B")]);
    q.advance_album();
    assert_eq!(q.current_song().unwrap().title, "b1");
    q.advance_album();
    assert_eq!(q.current_song().unwrap().title, "b2");
    q.deadvance_album();
    assert_eq!(q.current_song().unwrap().title, "b1");
    q.deadvance_album();
    assert_eq!(q.current_song().unwrap().title, "a1");
}

#[test]
fn advance_and_deadvance_song() {
    let mut q = Queue::new(10);
    q.add_song_block_after_queue(vec![song("1", "A"), song("2", "A")]);
    q.deadvance_song();
    assert_eq!(q.current_song().unwrap().title, "1");
    q.advance_song();
    q.advance_song();
    assert_eq!(q.current_song().unwrap().title, "2");
    q.deadvance_song();
    assert_eq!(q.current_song().unwrap().title, "1");
}

#[test]
fn history_is_cut_to_the_bound() {
    let mut q = Queue::new(1);
    q.add_song_block_after_queue(vec![song("1", "A"), song("2", "A"), song("3", "A")]);
    q.advance_song();
    q.advance_song();
    assert_eq!(titles(&q), vec!["2", "[3]"]);
    q.set_max(0);
    assert_eq!(titles(&q), vec!["[3]"]);
    assert_eq!(q.start_song().unwrap().title, "3");
}

#[test]
fn negative_bound_keeps_all_history() {
    let mut q = Queue::new(-1);
    q.add_song_block_after_queue(vec![song("1", "A"), song("2", "A"), song("3", "A")]);
    q.advance_song();
    q.advance_song();
    assert_eq!(titles(&q), vec!["1", "2", "[3]"]);
    assert_eq!(q.relative_song(-2).unwrap().title, "1");
    assert!(q.relative_song(-3).is_none());
    assert!(q.relative_song(1).is_none());
}

#[test]
fn element_holds_its_song() {
    let e = Element::new(song("1", "A"));
    let _copy = e;
}
