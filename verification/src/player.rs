//! The player's bookkeeping: the history, the current song and the queue,
//! the ring of track slots that keeps songs around the current one loaded,
//! and the commands that the audio engine must carry out after each change.
use vstd::prelude::*;
use std::collections::VecDeque;
use crate::song::{Song, Link, same_album};
use crate::text::same_text;

verus! {

/// A command for the audio engine, which holds `buffer_len()` track slots.
#[derive(Debug, Clone, Copy, PartialEq, Eq)]
pub enum AudioCommand<'a> {
    /// Load the file at `path` into track slot `slot`.
    Load { slot: usize, path: &'a str },
    /// Start playing the track in slot `slot`.
    Play { slot: usize },
    /// Pause (`true`) or resume (`false`) every voice.
    SetPauseAll(bool),
    /// Stop every voice.
    StopAll,
}

/// Pausing at once what was just started, when playback is paused.
pub open spec fn pause_unless_playing<'a>(playing: bool) -> Seq<AudioCommand<'a>> {
    if playing {
        Seq::empty()
    } else {
        seq![AudioCommand::SetPauseAll(true)]
    }
}

/// Loading a song into a slot, when it is a local file.
pub open spec fn load_if_local<'a>(song: Song<'a>, slot: int) -> Seq<AudioCommand<'a>> {
    match song.link {
        Link::Local(path) => seq![AudioCommand::Load { slot: slot as usize, path }],
        _ => Seq::empty(),
    }
}

/// Loading, playing (and pausing, when paused) a new current song that is a
/// local file, in slot `slot`.
pub open spec fn start_cmds<'a>(song: Song<'a>, slot: int, playing: bool) -> Seq<AudioCommand<'a>> {
    match song.link {
        Link::Local(path) => seq![
            AudioCommand::Load { slot: slot as usize, path },
            AudioCommand::Play { slot: slot as usize },
        ] + pause_unless_playing(playing),
        _ => Seq::empty(),
    }
}

/// Loading the queued songs at offsets `offset` up to `end` into the slots
/// after `pos`, stopping at the end of the queue.
pub open spec fn preload<'a>(q: Seq<Song<'a>>, offset: int, end: int, pos: int, len: int) -> Seq<AudioCommand<'a>>
    decreases end - offset,
{
    if offset >= end || offset >= q.len() || offset < 0 {
        Seq::empty()
    } else {
        load_if_local(q[offset], (pos + 1 + offset) % len) + preload(q, offset + 1, end, pos, len)
    }
}

/// How many songs at the front of a history of `len` songs are dropped to
/// keep at most `max` of them (a negative `max` keeps all).
pub open spec fn history_excess(max: int, len: int) -> int {
    if max >= 0 && len > max {
        len - max
    } else {
        0
    }
}

/// The history cut down to at most `max` songs, from the front.
pub open spec fn cut_history<'a>(max: int, h: Seq<Song<'a>>) -> Seq<Song<'a>> {
    h.skip(history_excess(max, h.len() as int))
}

/// How many songs at the front of `q` share the album of `song`, counted
/// from index `i` on.
pub open spec fn same_album_run<'a>(q: Seq<Song<'a>>, song: Song<'a>, i: int) -> int
    decreases q.len() - i,
{
    if 0 <= i < q.len() && same_album(q[i], song) {
        same_album_run(q, song, i + 1)
    } else {
        i
    }
}

/// When there is no current song, the first queued one (if any) becomes
/// current.
pub open spec fn settle<'a>(c: Option<Song<'a>>, q: Seq<Song<'a>>) -> (Option<Song<'a>>, Seq<Song<'a>>) {
    if c is None && q.len() > 0 {
        (Some(q[0]), q.drop_first())
    } else {
        (c, q)
    }
}

/// The commands for a song that `settle` made current.
pub open spec fn settle_cmds<'a>(c: Option<Song<'a>>, q: Seq<Song<'a>>, pos: int, playing: bool) -> Seq<AudioCommand<'a>> {
    if c is None && q.len() > 0 {
        start_cmds(q[0], pos, playing)
    } else {
        Seq::empty()
    }
}

/// Loading the song that comes into reach at the far end of the slot ring,
/// `ahead` songs down the queue, into slot `slot`.
pub open spec fn load_at<'a>(q: Seq<Song<'a>>, ahead: int, slot: int) -> Seq<AudioCommand<'a>> {
    if 0 <= ahead < q.len() {
        load_if_local(q[ahead], slot)
    } else {
        Seq::empty()
    }
}

/// The song `ahead` songs down `q` is a local file.
pub open spec fn local_at<'a>(q: Seq<Song<'a>>, ahead: int) -> bool {
    0 <= ahead < q.len() && q[ahead].link is Local
}

/// Skipping forward to the next album: the state (history, current, queue,
/// slot) reached and the commands given, before the history is cut.
pub open spec fn album_forward<'a>(
    h: Seq<Song<'a>>,
    c: Option<Song<'a>>,
    q: Seq<Song<'a>>,
    pos: int,
    len: int,
    playing: bool,
) -> (Seq<Song<'a>>, Option<Song<'a>>, Seq<Song<'a>>, int, Seq<AudioCommand<'a>>)
    decreases q.len(),
{
    if q.len() == 0 {
        (h, c, q, pos, Seq::empty())
    } else {
        let new = q[0];
        let q1 = q.drop_first();
        match c {
            Some(old) => {
                let h1 = h.push(old);
                let pos1 = (pos + 1) % len;
                let loads = load_at(q1, len / 2, (pos1 + len / 2) % len);
                if !same_album(new, old) {
                    (
                        h1,
                        Some(new),
                        q1,
                        pos1,
                        loads + seq![AudioCommand::Play { slot: pos1 as usize }] + pause_unless_playing(playing),
                    )
                } else {
                    let r = album_forward(h1, Some(new), q1, pos1, len, playing);
                    (r.0, r.1, r.2, r.3, loads + r.4)
                }
            },
            None => album_forward(h, Some(new), q1, pos, len, playing),
        }
    }
}

/// Going back over the songs of the album of `album_song`: the state
/// reached and the commands given, or `None` where a slot computation would
/// go below zero.
pub open spec fn album_back<'a>(
    h: Seq<Song<'a>>,
    c: Option<Song<'a>>,
    q: Seq<Song<'a>>,
    pos: int,
    len: int,
    playing: bool,
    album_song: Song<'a>,
) -> Option<(Seq<Song<'a>>, Option<Song<'a>>, Seq<Song<'a>>, int, Seq<AudioCommand<'a>>)>
    decreases h.len(),
{
    let resume = seq![AudioCommand::Play { slot: pos as usize }] + pause_unless_playing(playing);
    if h.len() == 0 {
        Some((h, c, q, pos, resume))
    } else {
        let new = h.last();
        let h1 = h.drop_last();
        if c is Some && !same_album(new, album_song) {
            Some((h, c, q, pos, resume))
        } else {
            let q1 = match c {
                Some(old) => seq![old] + q,
                None => q,
            };
            if pos < 1 || len <= 0 {
                None
            } else {
                let pos1 = (pos - 1) % len;
                let half = len / 2;
                if local_at(q1, half) && pos1 < half {
                    None
                } else {
                    let loads = load_at(q1, half, (pos1 - half) % len);
                    match album_back(h1, Some(new), q1, pos1, len, playing, album_song) {
                        Some(r) => Some((r.0, r.1, r.2, r.3, loads + r.4)),
                        None => None,
                    }
                }
            }
        }
    }
}

/// The queue with the current song (if any) put back at its front.
pub open spec fn with_front<'a>(c: Option<Song<'a>>, q: Seq<Song<'a>>) -> Seq<Song<'a>> {
    match c {
        Some(o) => seq![o] + q,
        None => q,
    }
}

/// The history with the current song (if any) added at its end.
pub open spec fn with_back<'a>(h: Seq<Song<'a>>, c: Option<Song<'a>>) -> Seq<Song<'a>> {
    match c {
        Some(o) => h.push(o),
        None => h,
    }
}

/// The player's bookkeeping.
pub struct Player<'a> {
    max_history: i32,
    history_songs: VecDeque<Song<'a>>,
    current_song: Option<Song<'a>>,
    queue_songs: VecDeque<Song<'a>>,
    buff_len: usize,
    buff_pos: usize,
    playing: bool,
}

impl<'q> Player<'q> {
    pub closed spec fn history(&self) -> Seq<Song<'q>> {
        self.history_songs@
    }

    pub closed spec fn current(&self) -> Option<Song<'q>> {
        self.current_song
    }

    pub closed spec fn queue(&self) -> Seq<Song<'q>> {
        self.queue_songs@
    }

    pub closed spec fn max_history(&self) -> int {
        self.max_history as int
    }

    /// How many track slots the audio engine holds.
    pub closed spec fn buffer_len(&self) -> int {
        self.buff_len as int
    }

    /// The slot of the current song.
    pub closed spec fn buffer_pos(&self) -> int {
        self.buff_pos as int
    }

    pub closed spec fn is_playing(&self) -> bool {
        self.playing
    }

    /// Songs are only ever held around a current one; the slot of the
    /// current song is one of the slots.
    pub open spec fn wf(&self) -> bool {
        &&& self.current() is None ==> self.history().len() == 0 && self.queue().len() == 0
        &&& 2 * self.buffer_len() <= usize::MAX
        &&& 0 <= self.buffer_pos()
        &&& self.buffer_len() == 0 ==> self.buffer_pos() == 0
        &&& self.buffer_len() > 0 ==> self.buffer_pos() < self.buffer_len()
    }

    /// Nothing about the bookkeeping changed except what is named.
    pub open spec fn same_settings(&self, other: &Self) -> bool {
        &&& self.max_history() == other.max_history()
        &&& self.buffer_len() == other.buffer_len()
        &&& self.is_playing() == other.is_playing()
    }

    /// A player with `buffer_size` track slots, nothing queued, paused.
    pub fn new(max_history: i32, buffer_size: u32) -> (p: Player<'q>)
        requires
            2 * (buffer_size as int) <= usize::MAX,
        ensures
            p.wf(),
            p.max_history() == max_history,
            p.history().len() == 0,
            p.current() is None,
            p.queue().len() == 0,
            p.buffer_len() == buffer_size,
            p.buffer_pos() == 0,
            !p.is_playing(),
    {
        Player {
            max_history,
            history_songs: VecDeque::new(),
            current_song: None,
            queue_songs: VecDeque::new(),
            buff_len: buffer_size as usize,
            buff_pos: 0,
            playing: false,
        }
    }

    pub fn set_max(&mut self, new_max_history: i32)
        requires
            old(self).wf(),
        ensures
            final(self).wf(),
            final(self).max_history() == new_max_history,
            final(self).history() == cut_history(new_max_history as int, old(self).history()),
            final(self).current() == old(self).current(),
            final(self).queue() == old(self).queue(),
            final(self).buffer_len() == old(self).buffer_len(),
            final(self).buffer_pos() == old(self).buffer_pos(),
            final(self).is_playing() == old(self).is_playing(),
    {
        self.max_history = new_max_history;
        self.cull_excess_history();
    }

    pub fn current_song(&self) -> (r: Option<Song<'q>>)
        ensures
            r == self.current(),
    {
        self.current_song
    }

    /// The current song has finished: there is one, playback is on, and the
    /// engine reports `voice_count` voices sounding, none.
    pub fn check_completed(&self, voice_count: u32) -> (r: bool)
        ensures
            r == (self.current() is Some && self.is_playing() && voice_count == 0),
    {
        if self.current_song.is_some() {
            if self.playing && voice_count == 0 {
                return true;
            }
        }
        false
    }

    pub fn check_playing(&self) -> (r: bool)
        ensures
            r == self.is_playing(),
    {
        self.playing
    }

    fn cull_excess_history(&mut self)
        ensures
            final(self).history() == cut_history(old(self).max_history(), old(self).history()),
            final(self).current() == old(self).current(),
            final(self).queue() == old(self).queue(),
            final(self).max_history() == old(self).max_history(),
            final(self).buffer_len() == old(self).buffer_len(),
            final(self).buffer_pos() == old(self).buffer_pos(),
            final(self).is_playing() == old(self).is_playing(),
    {
        let ghost h = self.history_songs@;
        // negative max_history (specifically -1) indicates no len constraint
        if self.max_history >= 0 && self.history_songs.len() > self.max_history as usize {
            let overage = self.history_songs.len() - self.max_history as usize;
            let mut dropped: usize = 0;
            let ghost rest = (self.current_song, self.queue_songs@, self.max_history, self.buff_len, self.buff_pos, self.playing);
            while dropped < overage
                invariant
                    rest == (self.current_song, self.queue_songs@, self.max_history, self.buff_len, self.buff_pos, self.playing),
                    overage <= h.len(),
                    0 <= dropped <= overage,
                    overage == h.len() - self.max_history,
                    self.history_songs@ == h.skip(dropped as int),
                decreases overage - dropped,
            {
                self.history_songs.pop_front();
                assert(h.skip(dropped as int).drop_first() =~= h.skip(dropped + 1));
                dropped = dropped + 1;
            }
        } else {
            assert(h.skip(0) =~= h);
        }
    }

    // Interactions
    pub fn toggle_play(&mut self) -> (cmds: Vec<AudioCommand<'q>>)
        requires
            old(self).wf(),
        ensures
            final(self).wf(),
            cmds@ == seq![AudioCommand::SetPauseAll(old(self).is_playing())],
            final(self).is_playing() == !old(self).is_playing(),
            final(self).history() == old(self).history(),
            final(self).current() == old(self).current(),
            final(self).queue() == old(self).queue(),
            final(self).max_history() == old(self).max_history(),
            final(self).buffer_len() == old(self).buffer_len(),
            final(self).buffer_pos() == old(self).buffer_pos(),
    {
        let mut cmds = Vec::new();
        cmds.push(AudioCommand::SetPauseAll(self.playing));
        self.playing = !self.playing;
        cmds
    }

    pub fn stop(&mut self) -> (cmds: Vec<AudioCommand<'q>>)
        requires
            old(self).wf(),
        ensures
            final(self).wf(),
            cmds@ == seq![AudioCommand::SetPauseAll(true)],
            !final(self).is_playing(),
            final(self).history() == old(self).history(),
            final(self).current() == old(self).current(),
            final(self).queue() == old(self).queue(),
            final(self).max_history() == old(self).max_history(),
            final(self).buffer_len() == old(self).buffer_len(),
            final(self).buffer_pos() == old(self).buffer_pos(),
    {
        let mut cmds = Vec::new();
        cmds.push(AudioCommand::SetPauseAll(true));
        self.playing = false;
        cmds
    }

    /// With no current song, makes the first queued song current and asks
    /// for it to be loaded and started.
    fn settle_current(&mut self, cmds: &mut Vec<AudioCommand<'q>>)
        requires
            2 * old(self).buffer_len() <= usize::MAX,
        ensures
            (final(self).current(), final(self).queue()) == settle(old(self).current(), old(self).queue()),
            final(cmds)@ == old(cmds)@ + settle_cmds(
                old(self).current(),
                old(self).queue(),
                old(self).buffer_pos(),
                old(self).is_playing(),
            ),
            final(self).history() == old(self).history(),
            final(self).same_settings(&*old(self)),
            final(self).buffer_pos() == old(self).buffer_pos(),
    {
        if self.current_song.is_none() {
            self.current_song = self.queue_songs.pop_front();
            if let Some(song) = self.current_song {
                if let Link::Local(path) = song.link {
                    cmds.push(AudioCommand::Load { slot: self.buff_pos, path });
                    cmds.push(AudioCommand::Play { slot: self.buff_pos });
                    if !self.playing {
                        cmds.push(AudioCommand::SetPauseAll(true));
                    }
                }
            }
        }
        proof {
            let c = old(self).current();
            let q = old(self).queue();
            if c is None && q.len() > 0 {
                let song = q[0];
                if let Link::Local(path) = song.link {
                    assert(final(cmds)@ =~= old(cmds)@ + start_cmds(song, old(self).buffer_pos(), old(self).is_playing()));
                } else {
                    assert(final(cmds)@ =~= old(cmds)@ + Seq::<AudioCommand<'q>>::empty());
                }
            } else {
                assert(final(cmds)@ =~= old(cmds)@ + Seq::<AudioCommand<'q>>::empty());
            }
        }
    }

    /// Loads the queued songs from offset `from` on into the slots after the
    /// current one, as far as half the ring reaches.
    fn preload_queue(&self, cmds: &mut Vec<AudioCommand<'q>>, from: usize)
        requires
            self.wf(),
        ensures
            final(cmds)@ == old(cmds)@ + preload(
                self.queue(),
                from as int,
                self.buffer_len() / 2,
                self.buffer_pos(),
                self.buffer_len(),
            ),
    {
        let end = self.buff_len / 2;
        let ghost q = self.queue();
        let ghost start = old(cmds)@;
        let mut load_offset = from;
        while load_offset < end
            invariant
                self.wf(),
                q == self.queue(),
                end == self.buffer_len() / 2,
                from <= load_offset,
                load_offset <= end || load_offset == from,
                start + preload(q, from as int, end as int, self.buffer_pos(), self.buffer_len())
                    == cmds@ + preload(q, load_offset as int, end as int, self.buffer_pos(), self.buffer_len()),
            ensures
                cmds@ == start + preload(q, from as int, end as int, self.buffer_pos(), self.buffer_len()),
            decreases end - load_offset,
        {
            if load_offset < self.queue_songs.len() {
                let song = self.queue_songs[load_offset];
                let ghost before = cmds@;
                // the slot of a song `load_offset + 1` places after the current one
                let load_pos = (self.buff_pos + 1 + load_offset) % self.buff_len;
                if let Link::Local(path) = song.link {
                    cmds.push(AudioCommand::Load { slot: load_pos, path });
                }
                assert(cmds@ =~= before + load_if_local(song, (self.buff_pos + 1 + load_offset) % (self.buff_len as int)));
                load_offset = load_offset + 1;
            } else {
                // if there aren't more songs in the queue, no point in continuing
                break;
            }
        }
        assert(preload(q, end as int, end as int, self.buffer_pos(), self.buffer_len()) =~= Seq::<AudioCommand<'q>>::empty());
    }

    pub fn queue_after_queue(&mut self, new_songs: Vec<Song<'q>>) -> (cmds: Vec<AudioCommand<'q>>)
        requires
            old(self).wf(),
        ensures
            final(self).wf(),
            final(self).same_settings(&*old(self)),
            final(self).history() == old(self).history(),
            final(self).buffer_pos() == old(self).buffer_pos(),
            ({
                let q1 = old(self).queue() + new_songs@;
                let (c2, q2) = settle(old(self).current(), q1);
                &&& final(self).current() == c2
                &&& final(self).queue() == q2
                &&& cmds@ == settle_cmds(old(self).current(), q1, old(self).buffer_pos(), old(self).is_playing())
                    + preload(q2, old(self).queue().len() as int, old(self).buffer_len() / 2, old(self).buffer_pos(), old(self).buffer_len())
            }),
    {
        let mut cmds: Vec<AudioCommand<'q>> = Vec::new();
        let old_queue_len = self.queue_songs.len();
        let ghost q0 = self.queue_songs@;
        let mut i: usize = 0;
        while i < new_songs.len()
            invariant
                0 <= i <= new_songs@.len(),
                self.queue_songs@ == q0 + new_songs@.take(i as int),
                self.history_songs@ == old(self).history_songs@,
                self.current_song == old(self).current_song,
                self.max_history == old(self).max_history,
                self.buff_len == old(self).buff_len,
                self.buff_pos == old(self).buff_pos,
                self.playing == old(self).playing,
            decreases new_songs@.len() - i,
        {
            self.queue_songs.push_back(new_songs[i]);
            assert(q0 + new_songs@.take(i + 1) =~= (q0 + new_songs@.take(i as int)).push(new_songs@[i as int]));
            i = i + 1;
        }
        assert(new_songs@.take(new_songs@.len() as int) =~= new_songs@);
        self.settle_current(&mut cmds);
        assert(cmds@ =~= settle_cmds(old(self).current(), q0 + new_songs@, old(self).buffer_pos(), old(self).is_playing()));
        // load possible new songs into buffer
        self.preload_queue(&mut cmds, old_queue_len);
        cmds
    }

    pub fn queue_after_current(&mut self, new_songs: Vec<Song<'q>>) -> (cmds: Vec<AudioCommand<'q>>)
        requires
            old(self).wf(),
        ensures
            final(self).wf(),
            final(self).same_settings(&*old(self)),
            final(self).history() == old(self).history(),
            final(self).buffer_pos() == old(self).buffer_pos(),
            ({
                let q1 = new_songs@ + old(self).queue();
                let (c2, q2) = settle(old(self).current(), q1);
                &&& final(self).current() == c2
                &&& final(self).queue() == q2
                &&& cmds@ == settle_cmds(old(self).current(), q1, old(self).buffer_pos(), old(self).is_playing())
                    + preload(q2, 0, old(self).buffer_len() / 2, old(self).buffer_pos(), old(self).buffer_len())
            }),
    {
        let mut cmds: Vec<AudioCommand<'q>> = Vec::new();
        let ghost q0 = self.queue_songs@;
        // splice in new_songs at start of queue
        let mut i: usize = new_songs.len();
        while i > 0
            invariant
                0 <= i <= new_songs@.len(),
                self.queue_songs@ == new_songs@.skip(i as int) + q0,
                self.history_songs@ == old(self).history_songs@,
                self.current_song == old(self).current_song,
                self.max_history == old(self).max_history,
                self.buff_len == old(self).buff_len,
                self.buff_pos == old(self).buff_pos,
                self.playing == old(self).playing,
            decreases i,
        {
            i = i - 1;
            self.queue_songs.push_front(new_songs[i]);
            assert(new_songs@.skip(i as int) + q0 =~= seq![new_songs@[i as int]] + (new_songs@.skip(i + 1) + q0));
        }
        assert(new_songs@.skip(0) =~= new_songs@);
        self.settle_current(&mut cmds);
        assert(cmds@ =~= settle_cmds(old(self).current(), new_songs@ + q0, old(self).buffer_pos(), old(self).is_playing()));
        // load possible new songs into buffer
        self.preload_queue(&mut cmds, 0);
        cmds
    }

    pub fn queue_after_album(&mut self, new_songs: Vec<Song<'q>>) -> (cmds: Vec<AudioCommand<'q>>)
        requires
            old(self).wf(),
        ensures
            final(self).wf(),
            final(self).same_settings(&*old(self)),
            final(self).history() == old(self).history(),
            final(self).buffer_pos() == old(self).buffer_pos(),
            ({
                let q0 = old(self).queue();
                let at = match old(self).current() {
                    Some(c) => same_album_run(q0, c, 0),
                    None => 0,
                };
                let q1 = q0.take(at) + new_songs@ + q0.skip(at);
                let (c2, q2) = settle(old(self).current(), q1);
                &&& final(self).current() == c2
                &&& final(self).queue() == q2
                &&& cmds@ == settle_cmds(old(self).current(), q1, old(self).buffer_pos(), old(self).is_playing())
                    + preload(q2, at, old(self).buffer_len() / 2, old(self).buffer_pos(), old(self).buffer_len())
            }),
            old(self).current() matches Some(c) ==> ({
                let q0 = old(self).queue();
                let at = same_album_run(q0, c, 0);
                &&& forall|j: int| 0 <= j < at ==> #[trigger] same_album(q0[j], c)
                &&& at < q0.len() ==> !same_album(q0[at], c)
                &&& final(self).queue().subrange(at, at + new_songs@.len()) == new_songs@
            }),
    {
        let mut cmds: Vec<AudioCommand<'q>> = Vec::new();
        let ghost q0 = self.queue_songs@;
        proof {
            if let Some(c) = self.current_song {
                law_album_run_is_longest_same_album_prefix(q0, c);
            }
        }
        // find location to splice new songs
        let splice_loc = {
            let mut i: usize = 0;
            if let Some(curr_song) = self.current_song {
                let curr_album = curr_song.album;
                while i < self.queue_songs.len()
                    invariant
                        q0 == self.queue_songs@,
                        0 <= i <= q0.len(),
                        curr_album@ == curr_song.album@,
                        same_album_run(q0, curr_song, i as int) == same_album_run(q0, curr_song, 0),
                    ensures
                        0 <= i <= q0.len(),
                        same_album_run(q0, curr_song, i as int) == i,
                        same_album_run(q0, curr_song, i as int) == same_album_run(q0, curr_song, 0),
                    decreases q0.len() - i,
                {
                    if !same_text(self.queue_songs[i].album, curr_album) {
                        break;
                    }
                    i = i + 1;
                }
            }
            i
        };
        // splice new songs after album
        let mut j: usize = 0;
        while j < new_songs.len()
            invariant
                0 <= j <= new_songs@.len(),
                0 <= splice_loc <= q0.len(),
                self.queue_songs@ == q0.take(splice_loc as int) + new_songs@.take(j as int) + q0.skip(splice_loc as int),
                self.history_songs@ == old(self).history_songs@,
                self.current_song == old(self).current_song,
                self.max_history == old(self).max_history,
                self.buff_len == old(self).buff_len,
                self.buff_pos == old(self).buff_pos,
                self.playing == old(self).playing,
            decreases new_songs@.len() - j,
        {
            let current_len = self.queue_songs.len();
            assert(splice_loc + j <= current_len);
            self.queue_songs.insert(splice_loc + j, new_songs[j]);
            assert(q0.take(splice_loc as int) + new_songs@.take(j + 1) + q0.skip(splice_loc as int)
                =~= (q0.take(splice_loc as int) + new_songs@.take(j as int) + q0.skip(splice_loc as int)).insert(
                    splice_loc + j,
                    new_songs@[j as int],
                ));
            j = j + 1;
        }
        assert(new_songs@.take(new_songs@.len() as int) =~= new_songs@);
        self.settle_current(&mut cmds);
        // load possible new songs into buffer
        self.preload_queue(&mut cmds, splice_loc);
        proof {
            let q1 = q0.take(splice_loc as int) + new_songs@ + q0.skip(splice_loc as int);
            assert(cmds@ =~= settle_cmds(old(self).current(), q1, old(self).buffer_pos(), old(self).is_playing())
                + preload(self.queue(), splice_loc as int, old(self).buffer_len() / 2, old(self).buffer_pos(), old(self).buffer_len()));
        }
        cmds
    }

    pub fn advance_song(&mut self) -> (cmds: Vec<AudioCommand<'q>>)
        requires
            old(self).wf(),
            old(self).queue().len() > 0 ==> old(self).buffer_len() > 0,
        ensures
            final(self).wf(),
            final(self).same_settings(&*old(self)),
            if old(self).queue().len() > 0 {
                let q1 = old(self).queue().drop_first();
                let len = old(self).buffer_len();
                let pos1 = (old(self).buffer_pos() + 1) % len;
                &&& final(self).history() == cut_history(
                    old(self).max_history(),
                    with_back(old(self).history(), old(self).current()),
                )
                &&& final(self).current() == Some(old(self).queue()[0])
                &&& final(self).queue() == q1
                &&& final(self).buffer_pos() == pos1
                &&& cmds@ == seq![AudioCommand::StopAll, AudioCommand::Play { slot: pos1 as usize }]
                    + pause_unless_playing(old(self).is_playing())
                    + load_at(q1, len / 2, (pos1 + len / 2) % len)
            } else {
                &&& final(self).history() == old(self).history()
                &&& final(self).current() == old(self).current()
                &&& final(self).queue() == old(self).queue()
                &&& final(self).buffer_pos() == old(self).buffer_pos()
                &&& cmds@ == seq![AudioCommand::StopAll]
            },
    {
        let mut cmds: Vec<AudioCommand<'q>> = Vec::new();
        // prevent advancing to a none song
        if let Some(new_song) = self.queue_songs.pop_front() {
            if let Some(old_song) = self.current_song {
                self.history_songs.push_back(old_song);
            }
            self.current_song = Some(new_song);
            self.cull_excess_history();

            // advance buffer
            cmds.push(AudioCommand::StopAll);
            self.buff_pos = self.buff_pos + 1;
            self.buff_pos = self.buff_pos % self.buff_len;
            // resume playback
            cmds.push(AudioCommand::Play { slot: self.buff_pos });
            if !self.playing {
                cmds.push(AudioCommand::SetPauseAll(true));
            }
            let ghost before = cmds@;
            // load new song to buffer
            let buff_max_future = self.buff_len / 2;
            if buff_max_future < self.queue_songs.len() {
                let song = self.queue_songs[buff_max_future];
                if let Link::Local(path) = song.link {
                    let load_pos = (self.buff_pos + buff_max_future) % self.buff_len;
                    cmds.push(AudioCommand::Load { slot: load_pos, path });
                }
            }
            proof {
                let len = self.buffer_len();
                assert(cmds@ =~= before + load_at(self.queue(), len / 2, (self.buffer_pos() + len / 2) % len));
                assert(before =~= seq![AudioCommand::StopAll, AudioCommand::Play { slot: self.buff_pos }]
                    + pause_unless_playing(self.playing));
            }
        } else {
            cmds.push(AudioCommand::StopAll);
            assert(cmds@ =~= seq![AudioCommand::StopAll]);
        }
        cmds
    }

    pub fn devance_song(&mut self) -> (cmds: Vec<AudioCommand<'q>>)
        requires
            old(self).wf(),
            old(self).history().len() > 0 ==> old(self).buffer_pos() > 0 && (local_at(
                with_front(old(self).current(), old(self).queue()),
                old(self).buffer_len() / 2,
            ) ==> old(self).buffer_pos() - 1 >= old(self).buffer_len() / 2),
        ensures
            final(self).wf(),
            final(self).same_settings(&*old(self)),
            if old(self).history().len() > 0 {
                let q1 = with_front(old(self).current(), old(self).queue());
                let len = old(self).buffer_len();
                let pos1 = old(self).buffer_pos() - 1;
                &&& final(self).history() == old(self).history().drop_last()
                &&& final(self).current() == Some(old(self).history().last())
                &&& final(self).queue() == q1
                &&& final(self).buffer_pos() == pos1
                &&& cmds@ == seq![AudioCommand::StopAll, AudioCommand::Play { slot: pos1 as usize }]
                    + pause_unless_playing(old(self).is_playing())
                    + load_at(q1, len / 2, (pos1 - len / 2) % len)
            } else {
                &&& final(self).history() == old(self).history()
                &&& final(self).current() == old(self).current()
                &&& final(self).queue() == old(self).queue()
                &&& final(self).buffer_pos() == old(self).buffer_pos()
                &&& cmds@.len() == 0
            },
    {
        let mut cmds: Vec<AudioCommand<'q>> = Vec::new();
        // prevent devancing to a none song
        if let Some(new_song) = self.history_songs.pop_back() {
            if let Some(old_song) = self.current_song {
                self.queue_songs.push_front(old_song);
                assert(self.queue_songs@ =~= seq![old_song] + old(self).queue());
            }
            self.current_song = Some(new_song);

            // devance buffer
            cmds.push(AudioCommand::StopAll);
            self.buff_pos = self.buff_pos - 1;
            proof {
                vstd::arithmetic::div_mod::lemma_small_mod(self.buff_pos as nat, self.buff_len as nat);
            }
            self.buff_pos = self.buff_pos % self.buff_len;
            // resume playback
            cmds.push(AudioCommand::Play { slot: self.buff_pos });
            if !self.playing {
                cmds.push(AudioCommand::SetPauseAll(true));
            }
            let ghost before = cmds@;
            // load new song to buffer
            let buff_max_past = self.buff_len / 2;
            if buff_max_past < self.queue_songs.len() {
                let song = self.queue_songs[buff_max_past];
                if let Link::Local(path) = song.link {
                    let load_pos = (self.buff_pos - buff_max_past) % self.buff_len;
                    cmds.push(AudioCommand::Load { slot: load_pos, path });
                }
            }
            proof {
                let len = self.buffer_len();
                assert(cmds@ =~= before + load_at(self.queue(), len / 2, (self.buffer_pos() - len / 2) % len));
                assert(before =~= seq![AudioCommand::StopAll, AudioCommand::Play { slot: self.buff_pos }]
                    + pause_unless_playing(self.playing));
            }
        }
        cmds
    }

    pub fn advance_album(&mut self) -> (cmds: Vec<AudioCommand<'q>>)
        requires
            old(self).wf(),
            old(self).queue().len() > 0 ==> old(self).buffer_len() > 0,
        ensures
            final(self).wf(),
            final(self).same_settings(&*old(self)),
            ({
                let r = album_forward(
                    old(self).history(),
                    old(self).current(),
                    old(self).queue(),
                    old(self).buffer_pos(),
                    old(self).buffer_len(),
                    old(self).is_playing(),
                );
                &&& final(self).history() == cut_history(old(self).max_history(), r.0)
                &&& final(self).current() == r.1
                &&& final(self).queue() == r.2
                &&& final(self).buffer_pos() == r.3
                &&& cmds@ == seq![AudioCommand::StopAll] + r.4
            }),
    {
        let mut cmds: Vec<AudioCommand<'q>> = Vec::new();
        cmds.push(AudioCommand::StopAll);
        let ghost r0 = album_forward(
            self.history(),
            self.current(),
            self.queue(),
            self.buffer_pos(),
            self.buffer_len(),
            self.is_playing(),
        );
        loop
            invariant_except_break
                ({
                    let r = album_forward(
                        self.history(),
                        self.current(),
                        self.queue(),
                        self.buffer_pos(),
                        self.buffer_len(),
                        self.is_playing(),
                    );
                    &&& r.0 == r0.0
                    &&& r.1 == r0.1
                    &&& r.2 == r0.2
                    &&& r.3 == r0.3
                    &&& seq![AudioCommand::StopAll] + r0.4 == cmds@ + r.4
                }),
            invariant
                self.max_history == old(self).max_history,
                self.buff_len == old(self).buff_len,
                self.playing == old(self).playing,
                2 * self.buff_len <= usize::MAX,
                self.queue_songs@.len() > 0 ==> self.buff_len > 0,
                self.buff_len > 0 ==> self.buff_pos < self.buff_len,
                self.buff_len == 0 ==> self.buff_pos == 0,
                self.current_song is None ==> self.history_songs@.len() == 0 && self.queue_songs@.len() == 0,
            ensures
                self.max_history == old(self).max_history,
                self.buff_len == old(self).buff_len,
                self.playing == old(self).playing,
                self.buff_len > 0 ==> self.buff_pos < self.buff_len,
                self.buff_len == 0 ==> self.buff_pos == 0,
                self.current_song is None ==> self.history_songs@.len() == 0 && self.queue_songs@.len() == 0,
                self.history() == r0.0,
                self.current() == r0.1,
                self.queue() == r0.2,
                self.buffer_pos() == r0.3,
                cmds@ == seq![AudioCommand::StopAll] + r0.4,
            decreases self.queue_songs@.len(),
        {
            let ghost q = self.queue_songs@;
            let ghost acc = cmds@;
            // prevent advancing to a none song
            if let Some(new_song) = self.queue_songs.pop_front() {
                if let Some(old_song) = self.current_song {
                    // advance buffer
                    self.history_songs.push_back(old_song);
                    self.buff_pos = self.buff_pos + 1;
                    self.buff_pos = self.buff_pos % self.buff_len;
                    // load new song to buffer
                    let buff_max_future = self.buff_len / 2;
                    if buff_max_future < self.queue_songs.len() {
                        let song = self.queue_songs[buff_max_future];
                        if let Link::Local(path) = song.link {
                            let load_pos = (self.buff_pos + buff_max_future) % self.buff_len;
                            cmds.push(AudioCommand::Load { slot: load_pos, path });
                        }
                    }
                    let ghost loads = load_at(
                        self.queue(),
                        self.buffer_len() / 2,
                        (self.buffer_pos() + self.buffer_len() / 2) % self.buffer_len(),
                    );
                    assert(cmds@ =~= acc + loads);
                    // looking for the first instance of the song album changing
                    if !same_text(new_song.album, old_song.album) {
                        self.current_song = Some(new_song);
                        cmds.push(AudioCommand::Play { slot: self.buff_pos });
                        if !self.playing {
                            cmds.push(AudioCommand::SetPauseAll(true));
                        }
                        assert(cmds@ =~= acc + (loads + seq![AudioCommand::Play { slot: self.buff_pos }]
                            + pause_unless_playing(self.playing)));
                        break;
                    }
                }
                self.current_song = Some(new_song);
            } else {
                assert(cmds@ + Seq::<AudioCommand<'q>>::empty() =~= cmds@);
                break;
            }
        }
        self.cull_excess_history();
        cmds
    }

    pub fn devance_album(&mut self) -> (cmds: Vec<AudioCommand<'q>>)
        requires
            old(self).wf(),
            old(self).history().len() > 0 ==> album_back(
                old(self).history(),
                old(self).current(),
                old(self).queue(),
                old(self).buffer_pos(),
                old(self).buffer_len(),
                old(self).is_playing(),
                old(self).history().last(),
            ) is Some,
        ensures
            final(self).wf(),
            final(self).same_settings(&*old(self)),
            if old(self).history().len() > 0 {
                let r = album_back(
                    old(self).history(),
                    old(self).current(),
                    old(self).queue(),
                    old(self).buffer_pos(),
                    old(self).buffer_len(),
                    old(self).is_playing(),
                    old(self).history().last(),
                )->0;
                &&& final(self).history() == r.0
                &&& final(self).current() == r.1
                &&& final(self).queue() == r.2
                &&& final(self).buffer_pos() == r.3
                &&& cmds@ == seq![AudioCommand::StopAll] + r.4
            } else {
                &&& final(self).history() == old(self).history()
                &&& final(self).current() == old(self).current()
                &&& final(self).queue() == old(self).queue()
                &&& final(self).buffer_pos() == old(self).buffer_pos()
                &&& cmds@.len() == 0
            },
            line(final(self).history(), final(self).current(), final(self).queue()) == line(
                old(self).history(),
                old(self).current(),
                old(self).queue(),
            ),
    {
        proof {
            if self.history().len() > 0 {
                law_album_back_keeps_order(
                    self.history(),
                    self.current(),
                    self.queue(),
                    self.buffer_pos(),
                    self.buffer_len(),
                    self.is_playing(),
                    self.history().last(),
                );
            }
        }
        let mut cmds: Vec<AudioCommand<'q>> = Vec::new();
        let n = self.history_songs.len();
        if n > 0 {
            let prev_song = self.history_songs[n - 1];
            cmds.push(AudioCommand::StopAll);
            // NOTE get the album of the previous song
            //  this means devancing on any song after the first
            //  in an album would restart it, but on the first song
            //  it would go to the previous album
            let devance_album = prev_song.album;
            let ghost r0 = album_back(
                self.history(),
                self.current(),
                self.queue(),
                self.buffer_pos(),
                self.buffer_len(),
                self.is_playing(),
                prev_song,
            )->0;
            loop
                invariant_except_break
                    album_back(
                        self.history(),
                        self.current(),
                        self.queue(),
                        self.buffer_pos(),
                        self.buffer_len(),
                        self.is_playing(),
                        prev_song,
                    ) is Some,
                    ({
                        let r = album_back(
                            self.history(),
                            self.current(),
                            self.queue(),
                            self.buffer_pos(),
                            self.buffer_len(),
                            self.is_playing(),
                            prev_song,
                        )->0;
                        &&& r.0 == r0.0
                        &&& r.1 == r0.1
                        &&& r.2 == r0.2
                        &&& r.3 == r0.3
                        &&& seq![AudioCommand::StopAll] + r0.4 == cmds@ + r.4
                    }),
                invariant
                    self.max_history == old(self).max_history,
                    self.buff_len == old(self).buff_len,
                    self.playing == old(self).playing,
                    2 * self.buff_len <= usize::MAX,
                    self.buff_len > 0 ==> self.buff_pos < self.buff_len,
                    self.buff_len == 0 ==> self.buff_pos == 0,
                    self.current_song is None ==> self.history_songs@.len() == 0 && self.queue_songs@.len() == 0,
                    devance_album@ == prev_song.album@,
                ensures
                    self.max_history == old(self).max_history,
                    self.buff_len == old(self).buff_len,
                    self.playing == old(self).playing,
                    self.buff_len > 0 ==> self.buff_pos < self.buff_len,
                    self.buff_len == 0 ==> self.buff_pos == 0,
                    self.current_song is None ==> self.history_songs@.len() == 0 && self.queue_songs@.len() == 0,
                    self.history() == r0.0,
                    self.current() == r0.1,
                    self.queue() == r0.2,
                    self.buffer_pos() == r0.3,
                    cmds@ == seq![AudioCommand::StopAll] + r0.4,
                decreases self.history_songs@.len(),
            {
                let ghost h = self.history_songs@;
                let ghost acc = cmds@;
                // prevent devancing to a none song
                if let Some(new_song) = self.history_songs.pop_back() {
                    if let Some(old_song) = self.current_song {
                        if !same_text(new_song.album, devance_album) {
                            self.history_songs.push_back(new_song);
                            assert(self.history_songs@ =~= h);
                            // resume playback
                            cmds.push(AudioCommand::Play { slot: self.buff_pos });
                            if !self.playing {
                                cmds.push(AudioCommand::SetPauseAll(true));
                            }
                            assert(cmds@ =~= acc + (seq![AudioCommand::Play { slot: self.buff_pos }]
                                + pause_unless_playing(self.playing)));
                            break;
                        }
                        self.queue_songs.push_front(old_song);
                        assert(self.queue_songs@ =~= with_front(Some(old_song), old(self).queue_songs@.take(0) + self.queue_songs@.skip(1)));
                    }
                    self.current_song = Some(new_song);
                    // devance buffer
                    self.buff_pos = self.buff_pos - 1;
                    proof {
                        vstd::arithmetic::div_mod::lemma_small_mod(self.buff_pos as nat, self.buff_len as nat);
                    }
                    self.buff_pos = self.buff_pos % self.buff_len;
                    // load new song to buffer
                    let buff_max_past = self.buff_len / 2;
                    if buff_max_past < self.queue_songs.len() {
                        let song = self.queue_songs[buff_max_past];
                        if let Link::Local(path) = song.link {
                            let load_pos = (self.buff_pos - buff_max_past) % self.buff_len;
                            cmds.push(AudioCommand::Load { slot: load_pos, path });
                        }
                    }
                    assert(cmds@ =~= acc + load_at(
                        self.queue(),
                        self.buffer_len() / 2,
                        (self.buffer_pos() - self.buffer_len() / 2) % self.buffer_len(),
                    ));
                } else {
                    // resume playback
                    cmds.push(AudioCommand::Play { slot: self.buff_pos });
                    if !self.playing {
                        cmds.push(AudioCommand::SetPauseAll(true));
                    }
                    assert(cmds@ =~= acc + (seq![AudioCommand::Play { slot: self.buff_pos }]
                        + pause_unless_playing(self.playing)));
                    break;
                }
            }
        } else {
            assert(cmds@.len() == 0);
        }
        cmds
    }

    /// Moves `relative_pos` songs forward (positive) or back (negative).
    pub fn jump_to_song(&mut self, relative_pos: i32)
        requires
            old(self).wf(),
            old(self).current() is Some && relative_pos != 0 ==> old(self).queue().len() + 1 <= i32::MAX,
            old(self).current() is Some && relative_pos < 0 ==> relative_pos != i32::MIN && (-relative_pos
                < old(self).queue().len() + 1 ==> -relative_pos <= old(self).history().len()),
        ensures
            final(self).wf(),
            final(self).same_settings(&*old(self)),
            final(self).buffer_pos() == old(self).buffer_pos(),
            ({
                let h = old(self).history();
                let q = old(self).queue();
                let c = old(self).current();
                if c is Some && relative_pos < 0 {
                    let q1 = seq![c->0] + q;
                    let k = -relative_pos;
                    let index = if k < q1.len() { h.len() - k } else { 0 };
                    let q2 = h.skip(index) + q1;
                    &&& final(self).history() == h.take(index)
                    &&& final(self).current() == Some(q2[0])
                    &&& final(self).queue() == q2.drop_first()
                } else if c is Some && relative_pos > 0 {
                    let q1 = seq![c->0] + q;
                    let index = if relative_pos < q1.len() { relative_pos as int } else { q1.len() - 1 };
                    let h1 = h + q1.take(index + 1);
                    &&& final(self).history() == cut_history(old(self).max_history(), h1.drop_last())
                    &&& final(self).current() == Some(h1.last())
                    &&& final(self).queue() == q1.skip(index + 1)
                } else {
                    &&& final(self).history() == h
                    &&& final(self).current() == c
                    &&& final(self).queue() == q
                }
            }),
    {
        let ghost h = self.history_songs@;
        if relative_pos < 0 {
            if let Some(song) = self.current_song {
                // move the current song
                self.queue_songs.push_front(song);
                let ghost q1 = self.queue_songs@;
                assert(q1 =~= seq![song] + old(self).queue());

                // drain the portion of the history being moved
                let k: i32 = -relative_pos;
                let queue_len = self.queue_songs.len();
                let index: usize;
                if k < queue_len as i32 {
                    index = self.history_songs.len() - k as usize;
                } else {
                    index = 0;
                }
                // add the drained history to the start of the queue
                assert(h.take(h.len() as int) =~= h);
                assert(h.skip(h.len() as int) + q1 =~= q1);
                while self.history_songs.len() > index
                    invariant
                        0 <= index <= h.len(),
                        self.history_songs@.len() >= index,
                        self.history_songs@.len() <= h.len(),
                        self.history_songs@ == h.take(self.history_songs@.len() as int),
                        self.queue_songs@ == h.skip(self.history_songs@.len() as int) + q1,
                        self.current_song == old(self).current_song,
                        self.max_history == old(self).max_history,
                        self.buff_len == old(self).buff_len,
                        self.buff_pos == old(self).buff_pos,
                        self.playing == old(self).playing,
                    decreases self.history_songs@.len(),
                {
                    let ghost n = self.history_songs@.len();
                    match self.history_songs.pop_back() {
                        Some(moved) => {
                            self.queue_songs.push_front(moved);
                            assert(h.take(n - 1) =~= h.take(n as int).drop_last());
                            assert(h.skip(n - 1) + q1 =~= seq![moved] + (h.skip(n as int) + q1));
                        },
                        None => {},
                    }
                }
                assert(self.history_songs@.len() == index);

                // get the new current song
                self.current_song = self.queue_songs.pop_front();
            } else {
                assert(h.skip(0) =~= h);
            }
        } else if relative_pos > 0 {
            if let Some(song) = self.current_song {
                // move the current song
                self.queue_songs.push_front(song);
                let ghost q1 = self.queue_songs@;
                assert(q1 =~= seq![song] + old(self).queue());

                // drain the portion of the queue being moved
                let queue_len = self.queue_songs.len();
                let index: usize;
                if relative_pos < queue_len as i32 {
                    index = relative_pos as usize;
                } else {
                    index = queue_len - 1;
                }
                // add the drained queue to the history
                let mut moved_count: usize = 0;
                assert(h + q1.take(0) =~= h);
                assert(q1.skip(0) =~= q1);
                while moved_count < index + 1
                    invariant
                        0 <= index < q1.len(),
                        q1.len() <= i32::MAX,
                        0 <= moved_count <= index + 1,
                        self.history_songs@ == h + q1.take(moved_count as int),
                        self.queue_songs@ == q1.skip(moved_count as int),
                        self.current_song == old(self).current_song,
                        self.max_history == old(self).max_history,
                        self.buff_len == old(self).buff_len,
                        self.buff_pos == old(self).buff_pos,
                        self.playing == old(self).playing,
                    decreases index + 1 - moved_count,
                {
                    match self.queue_songs.pop_front() {
                        Some(moved) => {
                            self.history_songs.push_back(moved);
                            assert(h + q1.take(moved_count + 1) =~= (h + q1.take(moved_count as int)).push(moved));
                            assert(q1.skip(moved_count + 1) =~= q1.skip(moved_count as int).drop_first());
                        },
                        None => {},
                    }
                    moved_count = moved_count + 1;
                }

                // get the new current song
                self.current_song = self.history_songs.pop_back();
                self.cull_excess_history();
            }
        }
    }

    /// Whether `advance_song` and `advance_album` can run on this player:
    /// stepping forward through the slot ring needs at least one slot.
    pub fn can_advance(&self) -> (r: bool)
        ensures
            r == (self.queue().len() > 0 ==> self.buffer_len() > 0),
    {
        self.queue_songs.len() == 0 || self.buff_len > 0
    }

    /// Whether `devance_song` can run on this player: going back moves the
    /// current slot down by one, and the slot it preloads lies half the ring
    /// further down; neither may fall below slot zero.
    pub fn can_devance_song(&self) -> (r: bool)
        requires
            self.wf(),
        ensures
            r == (self.history().len() > 0 ==> self.buffer_pos() > 0 && (local_at(
                with_front(self.current(), self.queue()),
                self.buffer_len() / 2,
            ) ==> self.buffer_pos() - 1 >= self.buffer_len() / 2)),
    {
        let n = self.history_songs.len();
        if n == 0 {
            return true;
        }
        if self.buff_pos == 0 {
            return false;
        }
        let half = self.buff_len / 2;
        let local = self.local_in_line(n, half);
        proof {
            let c = self.current();
            assert(line(self.history(), c, self.queue()).skip(n as int) =~= with_front(c, self.queue()));
        }
        !local || self.buff_pos - 1 >= half
    }

    /// Whether the song `off` places after position `i` of the playing
    /// order (history, current song, queue) is a local file.
    fn local_in_line(&self, i: usize, off: usize) -> (r: bool)
        requires
            self.current() is Some,
            i <= self.history().len(),
        ensures
            r == local_at(line(self.history(), self.current(), self.queue()).skip(i as int), off as int),
    {
        let ghost s = line(self.history(), self.current(), self.queue());
        let n = self.history_songs.len();
        let song: Song<'q>;
        if off < n - i {
            song = self.history_songs[i + off];
            assert(s.skip(i as int)[off as int] == self.history()[i + off]);
        } else {
            let k = off - (n - i);
            if k == 0 {
                match self.current_song {
                    Some(c) => {
                        song = c;
                    },
                    None => {
                        return false;
                    },
                }
                assert(s.skip(i as int)[off as int] == s[n as int]);
            } else if k - 1 < self.queue_songs.len() {
                song = self.queue_songs[k - 1];
                assert(s.skip(i as int)[off as int] == s[n + k]);
            } else {
                return false;
            }
        }
        match song.link {
            Link::Local(_) => true,
            _ => false,
        }
    }

    /// Whether `devance_album` can run on this player: at each song that it
    /// steps back over, neither the current slot nor the slot it preloads may
    /// fall below slot zero.
    pub fn can_devance_album(&self) -> (r: bool)
        requires
            self.wf(),
        ensures
            r == (self.history().len() > 0 ==> album_back(
                self.history(),
                self.current(),
                self.queue(),
                self.buffer_pos(),
                self.buffer_len(),
                self.is_playing(),
                self.history().last(),
            ) is Some),
    {
        let n = self.history_songs.len();
        if n == 0 {
            return true;
        }
        let album_song = self.history_songs[n - 1];
        let ghost h = self.history();
        let ghost c = self.current();
        let ghost q = self.queue();
        let ghost s = line(h, c, q);
        let ghost goal = album_back(h, c, q, self.buffer_pos(), self.buffer_len(), self.is_playing(), album_song) is Some;
        let len = self.buff_len;
        let half = len / 2;
        let mut i: usize = n;
        let mut pos: usize = self.buff_pos;
        proof {
            assert(s.take(n as int) =~= h);
            assert(s.skip(n + 1) =~= q);
        }
        loop
            invariant
                self.wf(),
                h == self.history(),
                c == self.current(),
                q == self.queue(),
                s == line(h, c, q),
                c is Some,
                n == h.len(),
                n > 0,
                album_song == h.last(),
                goal == (album_back(h, c, q, self.buffer_pos(), len as int, self.is_playing(), h.last()) is Some),
                len == self.buffer_len(),
                half == len / 2,
                0 <= i <= n,
                len > 0 ==> pos < len,
                len == 0 ==> pos == 0,
                goal == (album_back(s.take(i as int), Some(s[i as int]), s.skip(i + 1), pos as int, len as int, self.is_playing(), album_song) is Some),
            decreases i,
        {
            let ghost hi = s.take(i as int);
            let ghost qi = s.skip(i + 1);
            if i == 0 {
                assert(hi.len() == 0);
                assert(album_back(hi, Some(s[i as int]), qi, pos as int, len as int, self.is_playing(), album_song) is Some);
                return true;
            }
            let new_song = self.history_songs[i - 1];
            assert(hi.last() == new_song);
            if i < n && !same_text(new_song.album, album_song.album) {
                assert(!same_album(hi.last(), album_song));
                assert(album_back(hi, Some(s[i as int]), qi, pos as int, len as int, self.is_playing(), album_song) is Some);
                return true;
            }
            assert(i == n ==> same_album(new_song, album_song));
            assert(with_front(Some(s[i as int]), qi) =~= s.skip(i as int));
            if pos < 1 {
                return false;
            }
            let pos1 = pos - 1;
            proof {
                vstd::arithmetic::div_mod::lemma_small_mod(pos1 as nat, len as nat);
            }
            let local = self.local_in_line(i, half);
            if local && pos1 < half {
                return false;
            }
            proof {
                assert(hi.drop_last() =~= s.take(i - 1));
                assert(s[i - 1] == new_song);
            }
            i = i - 1;
            pos = pos1;
        }
    }

    /// Whether `jump_to_song(relative_pos)` can run on this player: the
    /// queue's length must fit the count it is compared with, and a jump
    /// back must not reach past the start of the history.
    pub fn can_jump_to_song(&self, relative_pos: i32) -> (r: bool)
        requires
            self.wf(),
        ensures
            r == ((self.current() is Some && relative_pos != 0 ==> self.queue().len() + 1 <= i32::MAX)
                && (self.current() is Some && relative_pos < 0 ==> relative_pos != i32::MIN && (-relative_pos
                < self.queue().len() + 1 ==> -relative_pos <= self.history().len()))),
    {
        if self.current_song.is_none() || relative_pos == 0 {
            return true;
        }
        if self.queue_songs.len() >= i32::MAX as usize {
            return false;
        }
        if relative_pos > 0 {
            return true;
        }
        if relative_pos == i32::MIN {
            return false;
        }
        let k = (-relative_pos) as usize;
        !(k < self.queue_songs.len() + 1) || k <= self.history_songs.len()
    }
}


// ---------------------------------------------------------------------------
// Laws of the player

/// The songs in playing order: the history, the current song, the queue.
pub open spec fn line<'a>(h: Seq<Song<'a>>, c: Option<Song<'a>>, q: Seq<Song<'a>>) -> Seq<Song<'a>> {
    with_back(h, c) + q
}

/// Cutting the history only drops songs from its front.
pub proof fn law_cut_drops_front_only<'a>(max: int, h: Seq<Song<'a>>)
    ensures
        ({
            let k = history_excess(max, h.len() as int);
            &&& 0 <= k <= h.len()
            &&& h.take(k) + cut_history(max, h) == h
            &&& max >= 0 ==> cut_history(max, h).len() <= max
        }),
{
    let k = history_excess(max, h.len() as int);
    assert(h.take(k) + h.skip(k) =~= h);
}

/// Advancing one song keeps the songs in playing order: what was queued
/// first becomes current, and nothing is lost apart from history cut away.
pub proof fn law_advance_keeps_order<'a>(h: Seq<Song<'a>>, c: Song<'a>, q: Seq<Song<'a>>)
    requires
        q.len() > 0,
    ensures
        line(with_back(h, Some(c)), Some(q[0]), q.drop_first()) == line(h, Some(c), q),
{
    assert(line(with_back(h, Some(c)), Some(q[0]), q.drop_first()) =~= line(h, Some(c), q));
}

/// Going back one song keeps the songs in playing order.
pub proof fn law_devance_keeps_order<'a>(h: Seq<Song<'a>>, c: Song<'a>, q: Seq<Song<'a>>)
    requires
        h.len() > 0,
    ensures
        line(h.drop_last(), Some(h.last()), with_front(Some(c), q)) == line(h, Some(c), q),
{
    assert(line(h.drop_last(), Some(h.last()), with_front(Some(c), q)) =~= line(h, Some(c), q));
}

/// Advancing one song and going back one returns to the song that was
/// current, with the same queue, when the history keeps at least one song.
pub proof fn law_advance_then_devance<'a>(h: Seq<Song<'a>>, c: Song<'a>, q: Seq<Song<'a>>, max: int)
    requires
        q.len() > 0,
        max != 0,
    ensures
        ({
            let h1 = cut_history(max, with_back(h, Some(c)));
            &&& h1.len() > 0
            &&& h1.last() == c
            &&& with_front(Some(q[0]), q.drop_first()) == q
        }),
{
    let h0 = with_back(h, Some(c));
    let k = history_excess(max, h0.len() as int);
    assert(h0.skip(k).last() == h0.last());
    assert(seq![q[0]] + q.drop_first() =~= q);
}

/// Jumping back keeps the songs in playing order.
pub proof fn law_jump_back_keeps_order<'a>(h: Seq<Song<'a>>, c: Song<'a>, q: Seq<Song<'a>>, k: int)
    requires
        k > 0,
        k < q.len() + 1 ==> k <= h.len(),
    ensures
        ({
            let q1 = seq![c] + q;
            let index = if k < q1.len() { h.len() - k } else { 0 };
            let q2 = h.skip(index) + q1;
            &&& q2.len() > 0
            &&& line(h.take(index), Some(q2[0]), q2.drop_first()) == line(h, Some(c), q)
        }),
{
    let q1 = seq![c] + q;
    let index = if k < q1.len() { h.len() - k } else { 0 };
    let q2 = h.skip(index) + q1;
    assert(line(h.take(index), Some(q2[0]), q2.drop_first()) =~= line(h, Some(c), q));
}

/// Jumping forward keeps the songs in playing order (before the history is
/// cut).
pub proof fn law_jump_forward_keeps_order<'a>(h: Seq<Song<'a>>, c: Song<'a>, q: Seq<Song<'a>>, k: int)
    requires
        k > 0,
    ensures
        ({
            let q1 = seq![c] + q;
            let index = if k < q1.len() { k } else { q1.len() - 1 };
            let h1 = h + q1.take(index + 1);
            &&& h1.len() > 0
            &&& line(h1.drop_last(), Some(h1.last()), q1.skip(index + 1)) == line(h, Some(c), q)
        }),
{
    let q1 = seq![c] + q;
    let index = if k < q1.len() { k } else { q1.len() - 1 };
    let h1 = h + q1.take(index + 1);
    assert(line(h1.drop_last(), Some(h1.last()), q1.skip(index + 1)) =~= line(h, Some(c), q));
}

/// Songs queued after the current one are played next, in their order.
pub proof fn law_queued_after_current_come_next<'a>(c: Song<'a>, q: Seq<Song<'a>>, new_songs: Seq<Song<'a>>)
    ensures
        settle(Some(c), new_songs + q).1.take(new_songs.len() as int) == new_songs,
        settle(Some(c), new_songs + q).0 == Some(c),
{
    assert((new_songs + q).take(new_songs.len() as int) =~= new_songs);
}

/// Skipping to the next album keeps the songs in playing order, skips only
/// songs that share the album of the song before them, and stops at the
/// first song whose album differs from the one before it unless the queue
/// runs out first.
pub proof fn law_album_forward<'a>(
    h: Seq<Song<'a>>,
    c: Song<'a>,
    q: Seq<Song<'a>>,
    pos: int,
    len: int,
    playing: bool,
)
    ensures
        ({
            let r = album_forward(h, Some(c), q, pos, len, playing);
            let whole = line(h, Some(c), q);
            &&& r.1 is Some
            &&& line(r.0, r.1, r.2) == whole
            &&& h.len() <= r.0.len()
            &&& forall|j: int| h.len() <= j < r.0.len() - 1 ==> #[trigger] same_album(whole[j + 1], whole[j])
            &&& q.len() > 0 && r.0.len() == h.len() ==> false
            &&& r.2.len() > 0 ==> !same_album(r.1->0, r.0.last())
        }),
    decreases q.len(),
{
    let r = album_forward(h, Some(c), q, pos, len, playing);
    let whole = line(h, Some(c), q);
    if q.len() == 0 {
        assert(line(r.0, r.1, r.2) =~= whole);
    } else {
        let new = q[0];
        let q1 = q.drop_first();
        let h1 = h.push(c);
        let pos1 = (pos + 1) % len;
        assert(line(h1, Some(new), q1) =~= whole);
        if !same_album(new, c) {
        } else {
            law_album_forward(h1, new, q1, pos1, len, playing);
            let r1 = album_forward(h1, Some(new), q1, pos1, len, playing);
            assert forall|j: int| h.len() <= j < r.0.len() - 1 implies #[trigger] same_album(whole[j + 1], whole[j]) by {
                if j == h.len() {
                    assert(whole[j] == c);
                    assert(whole[j + 1] == new);
                } else {
                    assert(h1.len() <= j < r1.0.len() - 1);
                    assert(same_album(line(h1, Some(new), q1)[j + 1], line(h1, Some(new), q1)[j]));
                }
            }
        }
    }
}


/// Counted from index `i`, the run of songs that share the album of `song`
/// ends at the first song of another album, or at the end of the queue.
pub proof fn lemma_album_run_from<'a>(q: Seq<Song<'a>>, song: Song<'a>, i: int)
    requires
        0 <= i <= q.len(),
    ensures
        ({
            let k = same_album_run(q, song, i);
            &&& i <= k <= q.len()
            &&& forall|j: int| i <= j < k ==> #[trigger] same_album(q[j], song)
            &&& k < q.len() ==> !same_album(q[k], song)
        }),
    decreases q.len() - i,
{
    if i < q.len() && same_album(q[i], song) {
        lemma_album_run_from(q, song, i + 1);
    }
}

/// The songs queued after the current album go right after the longest
/// run at the front of the queue whose album is that of the current song:
/// every song of the run shares the album, and the song after it (if any)
/// does not. In particular, when the first queued song is of another album,
/// the new songs come first.
pub proof fn law_album_run_is_longest_same_album_prefix<'a>(q: Seq<Song<'a>>, c: Song<'a>)
    ensures
        ({
            let k = same_album_run(q, c, 0);
            &&& 0 <= k <= q.len()
            &&& forall|j: int| 0 <= j < k ==> #[trigger] same_album(q[j], c)
            &&& k < q.len() ==> !same_album(q[k], c)
            &&& q.len() > 0 && !same_album(q[0], c) ==> k == 0
            &&& forall|new_songs: Seq<Song<'a>>| (#[trigger] (q.take(k) + new_songs + q.skip(k))).subrange(k, k + new_songs.len()) == new_songs
        }),
{
    lemma_album_run_from(q, c, 0);
    let k = same_album_run(q, c, 0);
    assert forall|new_songs: Seq<Song<'a>>| (#[trigger] (q.take(k) + new_songs + q.skip(k))).subrange(k, k + new_songs.len()) == new_songs by {
        assert((q.take(k) + new_songs + q.skip(k)).subrange(k, k + new_songs.len()) =~= new_songs);
    }
}

/// Going back over an album keeps the songs in playing order: the history,
/// the current song and the queue read the same before and after. Only
/// songs from the end of the history are stepped back over; each of them
/// (but a first one taken when there was no current song) shares the album
/// of `album_song`, and the song the history then ends with does not.
pub proof fn law_album_back_keeps_order<'a>(
    h: Seq<Song<'a>>,
    c: Option<Song<'a>>,
    q: Seq<Song<'a>>,
    pos: int,
    len: int,
    playing: bool,
    album_song: Song<'a>,
)
    requires
        album_back(h, c, q, pos, len, playing, album_song) is Some,
    ensures
        ({
            let r = album_back(h, c, q, pos, len, playing, album_song)->0;
            &&& line(r.0, r.1, r.2) == line(h, c, q)
            &&& r.0.len() <= h.len()
            &&& r.0 == h.take(r.0.len() as int)
            &&& forall|j: int|
                r.0.len() <= j < h.len() && (c is Some || j < h.len() - 1) ==> #[trigger] same_album(
                    h[j],
                    album_song,
                )
            &&& r.0.len() > 0 && (c is Some || r.0.len() < h.len()) ==> !same_album(r.0.last(), album_song)
        }),
    decreases h.len(),
{
    let r = album_back(h, c, q, pos, len, playing, album_song)->0;
    if h.len() == 0 {
        assert(h.take(0) =~= h);
    } else {
        let new = h.last();
        let h1 = h.drop_last();
        if c is Some && !same_album(new, album_song) {
            assert(h.take(h.len() as int) =~= h);
        } else {
            let q1 = with_front(c, q);
            let pos1 = (pos - 1) % len;
            law_album_back_keeps_order(h1, Some(new), q1, pos1, len, playing, album_song);
            assert(line(h1, Some(new), q1) =~= line(h, c, q));
            assert(h1.take(r.0.len() as int) =~= h.take(r.0.len() as int));
            assert forall|j: int|
                r.0.len() <= j < h.len() && (c is Some || j < h.len() - 1) implies #[trigger] same_album(
                h[j],
                album_song,
            ) by {
                if j < h.len() - 1 {
                    assert(h1[j] == h[j]);
                    assert(same_album(h1[j], album_song));
                }
            }
        }
    }
}

} // verus!
