use longhorn::player::{AudioCommand, Player};
use longhorn::song::{Link, Song};

fn local<'a>(title: &'a str, album: &'a str, path: &'a str) -> Song<'a> {
    Song { title, album, artist: "Artist", link: Link::Local(path) }
}

fn remote<'a>(title: &'a str, album: &'a str) -> Song<'a> {
    Song { title, album, artist: "Artist", link: Link::Youtube("link") }
}

fn title(s: Option<Song>) -> String {
    s.map(|s| s.title.to_string()).unwrap_or_default()
}

#[test]
fn queueing_into_an_empty_player_starts_the_first_song() {
    let mut p = Player::new(10, 9);
    let cmds = p.queue_after_current(vec![local("1", "A", "a"), local("2", "A", "b"), remote("3", "A")]);
    assert_eq!(
        cmds,
        vec![
            AudioCommand::Load { slot: 0, path: "a" },
            AudioCommand::Play { slot: 0 },
            AudioCommand::SetPauseAll(true),
            AudioCommand::Load { slot: 1, path: "b" },
        ]
    );
    assert_eq!(title(p.current_song()), "1");
}

#[test]
fn advance_and_devance_move_through_the_ring() {
    let mut p = Player::new(10, 9);
    p.queue_after_queue(vec![local("1", "A", "a"), local("2", "A", "b"), remote("3", "A")]);
    let cmds = p.advance_song();
    assert_eq!(cmds, vec![AudioCommand::StopAll, AudioCommand::Play { slot: 1 }, AudioCommand::SetPauseAll(true)]);
    assert_eq!(title(p.current_song()), "2");
    let cmds = p.devance_song();
    assert_eq!(cmds, vec![AudioCommand::StopAll, AudioCommand::Play { slot: 0 }, AudioCommand::SetPauseAll(true)]);
    assert_eq!(title(p.current_song()), "1");
    assert!(p.devance_song().is_empty());
}

#[test]
fn advancing_past_the_end_only_stops() {
    let mut p = Player::new(10, 3);
    p.queue_after_queue(vec![remote("1", "A")]);
    assert_eq!(p.advance_song(), vec![AudioCommand::StopAll]);
    assert_eq!(title(p.current_song()), "1");
}

#[test]
fn advance_preloads_the_song_half_a_ring_ahead() {
    let mut p = Player::new(10, 3);
    p.queue_after_queue(vec![remote("1", "A"), remote("2", "A"), remote("3", "A"), local("4", "A", "d")]);
    let cmds = p.advance_song();
    assert_eq!(
        cmds,
        vec![
            AudioCommand::StopAll,
            AudioCommand::Play { slot: 1 },
            AudioCommand::SetPauseAll(true),
            AudioCommand::Load { slot: 2, path: "d" },
        ]
    );
}

#[test]
fn play_toggle_and_completion() {
    let mut p = Player::new(10, 9);
    assert!(!p.check_playing());
    assert!(!p.check_completed(0));
    p.queue_after_current(vec![remote("1", "A")]);
    assert_eq!(p.toggle_play(), vec![AudioCommand::SetPauseAll(false)]);
    assert!(p.check_playing());
    assert!(p.check_completed(0));
    assert!(!p.check_completed(1));
    assert_eq!(p.stop(), vec![AudioCommand::SetPauseAll(true)]);
    assert!(!p.check_playing());
}

#[test]
fn queue_after_album_inserts_after_the_current_album() {
    let mut p = Player::new(10, 1);
    p.queue_after_queue(vec![remote("a1", "A"), remote("a2", "A"), remote("b1", "B")]);
    p.queue_after_album(vec![remote("c1", "C")]);
    p.advance_song();
    assert_eq!(title(p.current_song()), "a2");
    p.advance_song();
    assert_eq!(title(p.current_song()), "c1");
    p.advance_song();
    assert_eq!(title(p.current_song()), "b1");
}

#[test]
fn advance_album_and_devance_album() {
    let mut p = Player::new(10, 5);
    p.queue_after_queue(vec![remote("a1", "A"), remote("a2", "A"), remote("b1", "B"), remote("b2", "B")]);
    let cmds = p.advance_album();
    assert_eq!(title(p.current_song()), "b1");
    assert_eq!(cmds, vec![AudioCommand::StopAll, AudioCommand::Play { slot: 2 }, AudioCommand::SetPauseAll(true)]);
    p.advance_song();
    assert_eq!(title(p.current_song()), "b2");
    let cmds = p.devance_album();
    assert_eq!(title(p.current_song()), "b1");
    assert_eq!(cmds, vec![AudioCommand::StopAll, AudioCommand::Play { slot: 2 }, AudioCommand::SetPauseAll(true)]);
}

#[test]
fn jump_moves_both_ways() {
    let mut p = Player::new(-1, 9);
    p.queue_after_queue(vec![remote("1", "A"), remote("2", "A"), remote("3", "A"), remote("4", "A")]);
    p.jump_to_song(2);
    assert_eq!(title(p.current_song()), "3");
    p.jump_to_song(-1);
    assert_eq!(title(p.current_song()), "2");
    p.jump_to_song(10);
    assert_eq!(title(p.current_song()), "4");
}

#[test]
fn history_is_cut_when_the_bound_shrinks() {
    let mut p = Player::new(-1, 9);
    p.queue_after_queue(vec![remote("1", "A"), remote("2", "A"), remote("3", "A")]);
    p.advance_song();
    p.advance_song();
    p.set_max(0);
    assert!(p.devance_song().is_empty());
    assert_eq!(title(p.current_song()), "3");
}

#[test]
fn going_back_from_the_first_slot_is_refused() {
    let mut p = Player::new(10, 9);
    assert!(p.can_devance_song());
    assert!(p.can_devance_album());
    p.queue_after_queue(vec![remote("1", "A"), remote("2", "A"), remote("3", "B")]);
    p.jump_to_song(2);
    // history "1", "2" at slot 0: stepping back would go below slot zero
    assert!(!p.can_devance_song());
    assert!(!p.can_devance_album());
    let mut p = Player::new(10, 9);
    p.queue_after_queue(vec![remote("1", "A"), remote("2", "A")]);
    p.advance_song();
    assert!(p.can_devance_song());
    assert!(p.can_devance_album());
}

#[test]
fn going_back_with_a_local_file_half_a_ring_ahead_needs_room() {
    let mut p = Player::new(10, 3);
    p.queue_after_queue(vec![remote("1", "A"), remote("2", "A"), local("3", "A", "c")]);
    p.advance_song();
    // at slot 1, going back would preload "3" into the slot below slot zero
    assert!(!p.can_devance_song());

    let mut p = Player::new(10, 3);
    p.queue_after_queue(vec![remote("1", "A"), remote("2", "A"), remote("3", "A"), local("4", "A", "d")]);
    p.advance_song();
    assert!(p.can_devance_song());
    p.advance_song();
    // at slot 2, going back preloads "4" into slot 0
    assert!(p.can_devance_song());
    let cmds = p.devance_song();
    assert_eq!(
        cmds,
        vec![
            AudioCommand::StopAll,
            AudioCommand::Play { slot: 1 },
            AudioCommand::SetPauseAll(true),
            AudioCommand::Load { slot: 0, path: "d" },
        ]
    );
}

#[test]
fn advancing_needs_a_slot_only_with_songs_queued() {
    let mut p = Player::new(10, 0);
    assert!(p.can_advance());
    p.queue_after_queue(vec![remote("1", "A")]);
    assert!(p.can_advance());
    p.queue_after_queue(vec![remote("2", "A")]);
    assert!(!p.can_advance());
}

#[test]
fn jumps_back_past_the_history_are_refused() {
    let mut p = Player::new(10, 9);
    assert!(p.can_jump_to_song(-5));
    p.queue_after_queue(vec![remote("1", "A"), remote("2", "A"), remote("3", "A"), remote("4", "A")]);
    p.jump_to_song(1);
    assert!(p.can_jump_to_song(-1));
    assert!(!p.can_jump_to_song(-2));
    assert!(p.can_jump_to_song(-10));
    assert!(!p.can_jump_to_song(i32::MIN));
    assert!(p.can_jump_to_song(3));
}
