//! A play queue: songs in order, one of them current, the ones before it
//! forming the history, which is kept to a bounded length.
use vstd::prelude::*;
use crate::song::{Song, same_album};
use crate::text::same_text;

verus! {

/// One entry of a queue.
#[derive(Debug, Clone, Copy)]
pub struct Element<'a> {
    song: Song<'a>,
}

impl<'s> Element<'s> {
    pub closed spec fn song(self) -> Song<'s> {
        self.song
    }

    pub fn new(song: Song<'s>) -> (e: Element<'s>)
        ensures
            e.song() == song,
    {
        Element { song: song.clone() }
    }
}

/// The songs held by a sequence of entries.
pub open spec fn element_songs<'a>(es: Seq<Element<'a>>) -> Seq<Song<'a>> {
    es.map_values(|e: Element<'a>| e.song())
}

/// How many songs at the front of the history are dropped to keep at most
/// `max` of them before position `pos` (a negative `max` keeps all).
pub open spec fn excess_history(max: int, pos: int, len: int) -> int {
    if max >= 0 && len > 0 && pos > max {
        pos - max
    } else {
        0
    }
}

/// The last index of the run of songs, starting at `p` and extended from
/// `e`, that share the album of song `p`.
pub open spec fn album_end_from(s: Seq<Song>, p: int, e: int) -> int
    decreases s.len() - e,
{
    if 0 <= e && e + 1 < s.len() && same_album(s[e + 1], s[p]) {
        album_end_from(s, p, e + 1)
    } else {
        e
    }
}

/// The last song of the album run that the song at `p` begins.
pub open spec fn album_end(s: Seq<Song>, p: int) -> int {
    album_end_from(s, p, p)
}

/// The first index of the run of songs, ending just before `j`, that share
/// the album of song `a`.
pub open spec fn album_start_from(s: Seq<Song>, a: int, j: int) -> int
    decreases j,
{
    if 0 < j <= s.len() && same_album(s[j - 1], s[a]) {
        album_start_from(s, a, j - 1)
    } else {
        j
    }
}

/// `block` placed right after index `at` of `s`.
pub open spec fn placed_after<T>(s: Seq<T>, at: int, block: Seq<T>) -> Seq<T> {
    s.take(at + 1) + block + s.skip(at + 1)
}

/// A queue of songs: `songs()` from start to end, the current one at
/// `position()`, at most `max_history()` songs kept before it when that
/// bound is not negative.
pub struct Queue<'a> {
    max_history: i32,
    len_history: i32,
    len_queue: i32,
    elements: Vec<Element<'a>>,
}

impl<'q> Queue<'q> {
    pub closed spec fn songs(&self) -> Seq<Song<'q>> {
        element_songs(self.elements@)
    }

    /// The index of the current song (the length of the history).
    pub closed spec fn position(&self) -> int {
        self.len_history as int
    }

    pub closed spec fn max_history(&self) -> int {
        self.max_history as int
    }

    /// The recorded length agrees with the songs held.
    pub closed spec fn counts_agree(&self) -> bool {
        self.len_queue as int == self.elements@.len()
    }

    /// A queue is empty, or its current song is one of its songs; its length
    /// fits the `i32` counters.
    pub open spec fn wf(&self) -> bool {
        &&& self.counts_agree()
        &&& self.songs().len() <= i32::MAX
        &&& 0 <= self.position()
        &&& self.songs().len() == 0 ==> self.position() == 0
        &&& self.songs().len() > 0 ==> self.position() < self.songs().len()
    }

    /// The queue after the history is cut down to the bound, from the front.
    pub open spec fn culled(self, songs: Seq<Song<'q>>, pos: int) -> (Seq<Song<'q>>, int) {
        let k = excess_history(self.max_history(), pos, songs.len() as int);
        (songs.skip(k), pos - k)
    }

    pub fn new(max_history: i32) -> (q: Queue<'q>)
        ensures
            q.wf(),
            q.songs() == Seq::<Song<'q>>::empty(),
            q.position() == 0,
            q.max_history() == max_history,
    {
        Queue { max_history: max_history, len_history: 0, len_queue: 0, elements: Vec::new() }
    }

    pub fn set_max(&mut self, new_max_history: i32)
        requires
            old(self).wf(),
        ensures
            final(self).wf(),
            final(self).max_history() == new_max_history,
            (final(self).songs(), final(self).position()) == final(self).culled(
                old(self).songs(),
                old(self).position(),
            ),
    {
        self.max_history = new_max_history;
        self.cull_excess_history();
    }

    pub fn start_song(&self) -> (r: Option<&Song<'q>>)
        requires
            self.wf(),
        ensures
            match r {
                Some(s) => self.songs().len() > 0 && *s == self.songs()[0],
                None => self.songs().len() == 0,
            },
    {
        if self.elements.len() > 0 {
            Some(&self.elements[0].song)
        } else {
            None
        }
    }

    pub fn current_song(&self) -> (r: Option<&Song<'q>>)
        requires
            self.wf(),
        ensures
            match r {
                Some(s) => self.songs().len() > 0 && *s == self.songs()[self.position()],
                None => self.songs().len() == 0,
            },
    {
        if self.elements.len() > 0 {
            Some(&self.elements[self.len_history as usize].song)
        } else {
            None
        }
    }

    pub fn end_song(&self) -> (r: Option<&Song<'q>>)
        requires
            self.wf(),
        ensures
            match r {
                Some(s) => self.songs().len() > 0 && *s == self.songs().last(),
                None => self.songs().len() == 0,
            },
    {
        let n = self.elements.len();
        if n > 0 {
            Some(&self.elements[n - 1].song)
        } else {
            None
        }
    }

    /// The song `relative_pos` places after (or, negative, before) the current one.
    pub fn relative_song(&self, relative_pos: i32) -> (r: Option<&Song<'q>>)
        requires
            self.wf(),
            relative_pos != i32::MIN,
        ensures
            ({
                let i = self.position() + relative_pos;
                match r {
                    Some(s) => self.songs().len() > 0 && 0 <= i < self.songs().len() && *s == self.songs()[i],
                    None => !(self.songs().len() > 0 && 0 <= i < self.songs().len()),
                }
            }),
    {
        if relative_pos == 0 {
            self.current_song()
        } else if (relative_pos < 0) && (-relative_pos <= self.len_history) {
            self.history_song(-relative_pos)
        } else if (relative_pos > 0) && (relative_pos < self.len_queue - self.len_history) {
            self.queue_song(relative_pos)
        } else {
            None
        }
    }

    fn history_song(&self, relative_pos: i32) -> (r: Option<&Song<'q>>)
        requires
            self.wf(),
            0 < relative_pos <= self.position(),
        ensures
            r matches Some(s) && *s == self.songs()[self.position() - relative_pos],
    {
        Some(&self.elements[(self.len_history - relative_pos) as usize].song)
    }

    fn queue_song(&self, relative_pos: i32) -> (r: Option<&Song<'q>>)
        requires
            self.wf(),
            0 < relative_pos,
            self.position() + relative_pos < self.songs().len(),
        ensures
            r matches Some(s) && *s == self.songs()[self.position() + relative_pos],
    {
        Some(&self.elements[(self.len_history + relative_pos) as usize].song)
    }

    /// The index of the last song of the current album's run.
    fn end_of_current_album(&self) -> (r: Option<usize>)
        requires
            self.wf(),
        ensures
            match r {
                Some(e) => self.songs().len() > 0 && e == album_end(self.songs(), self.position()),
                None => self.songs().len() == 0,
            },
    {
        if self.elements.len() == 0 {
            return None;
        }
        let ghost s = self.songs();
        let ghost p = self.position();
        let pos = self.len_history as usize;
        let play_album = self.elements[pos].song.album;
        let mut last_element_of_album = pos;
        while last_element_of_album + 1 < self.elements.len()
            invariant
                s == self.songs(),
                p == pos,
                0 <= pos <= last_element_of_album < s.len(),
                s.len() == self.elements@.len(),
                play_album@ == s[p].album@,
                s.len() <= i32::MAX,
                album_end_from(s, p, last_element_of_album as int) == album_end(s, p),
            ensures
                0 <= pos <= last_element_of_album < s.len(),
                album_end_from(s, p, last_element_of_album as int) == last_element_of_album,
                album_end_from(s, p, last_element_of_album as int) == album_end(s, p),
            decreases s.len() - last_element_of_album,
        {
            let element_album = self.elements[last_element_of_album + 1].song.album;
            if !same_text(play_album, element_album) {
                break;
            }
            last_element_of_album = last_element_of_album + 1;
        }
        Some(last_element_of_album)
    }

    /// The entries of `new_songs`, in order.
    fn block_of(new_songs: Vec<Song<'q>>) -> (block: Vec<Element<'q>>)
        ensures
            element_songs(block@) == new_songs@,
    {
        let mut block: Vec<Element<'q>> = Vec::new();
        let mut i: usize = 0;
        while i < new_songs.len()
            invariant
                0 <= i <= new_songs@.len(),
                element_songs(block@) == new_songs@.take(i as int),
            decreases new_songs@.len() - i,
        {
            block.push(Element::new(new_songs[i]));
            assert(new_songs@.take(i + 1) =~= new_songs@.take(i as int).push(new_songs@[i as int]));
            assert(element_songs(block@) =~= new_songs@.take(i + 1));
            i = i + 1;
        }
        assert(new_songs@.take(new_songs@.len() as int) =~= new_songs@);
        block
    }

    /// Places `block` between index `at - 1` and index `at`.
    fn splice_in(&mut self, at: usize, block: Vec<Element<'q>>)
        requires
            at <= old(self).elements@.len(),
        ensures
            final(self).elements@ == old(self).elements@.take(at as int) + block@ + old(self).elements@.skip(at as int),
            final(self).max_history == old(self).max_history,
            final(self).len_history == old(self).len_history,
            final(self).len_queue == old(self).len_queue,
    {
        let ghost before = self.elements@;
        let ghost fields = (self.max_history, self.len_history, self.len_queue);
        let tail = self.elements.split_off(at);
        let mut i: usize = 0;
        while i < block.len()
            invariant
                0 <= i <= block@.len(),
                fields == (self.max_history, self.len_history, self.len_queue),
                self.elements@ == before.take(at as int) + block@.take(i as int),
            decreases block@.len() - i,
        {
            self.elements.push(block[i]);
            assert(block@.take(i + 1) =~= block@.take(i as int).push(block@[i as int]));
            i = i + 1;
        }
        let mut j: usize = 0;
        while j < tail.len()
            invariant
                0 <= j <= tail@.len(),
                at <= before.len(),
                fields == (self.max_history, self.len_history, self.len_queue),
                tail@ == before.subrange(at as int, before.len() as int),
                self.elements@ == before.take(at as int) + block@ + tail@.take(j as int),
            decreases tail@.len() - j,
        {
            self.elements.push(tail[j]);
            assert(tail@.take(j + 1) =~= tail@.take(j as int).push(tail@[j as int]));
            j = j + 1;
        }
        assert(block@.take(block@.len() as int) =~= block@);
        assert(tail@.take(tail@.len() as int) =~= before.skip(at as int));
        assert(self.elements@ =~= before.take(at as int) + block@ + before.skip(at as int));
    }

    proof fn lemma_songs_of_splice(
        es: Seq<Element<'q>>,
        at: int,
        block: Seq<Element<'q>>,
    )
        requires
            0 <= at <= es.len(),
        ensures
            element_songs(es.take(at) + block + es.skip(at)) == element_songs(es).take(at)
                + element_songs(block) + element_songs(es).skip(at),
    {
        assert(element_songs(es.take(at) + block + es.skip(at)) =~= element_songs(es).take(at)
            + element_songs(block) + element_songs(es).skip(at));
    }

    pub fn add_song_after_current(&mut self, new_song: Song<'q>)
        requires
            old(self).wf(),
            old(self).songs().len() < i32::MAX,
        ensures
            final(self).wf(),
            final(self).max_history() == old(self).max_history(),
            if old(self).songs().len() == 0 {
                final(self).songs() == seq![new_song] && final(self).position() == 0
            } else {
                final(self).songs() == placed_after(old(self).songs(), old(self).position(), seq![new_song])
                    && final(self).position() == old(self).position()
            },
    {
        let mut block: Vec<Element<'q>> = Vec::new();
        block.push(Element::new(new_song));
        assert(element_songs(block@) =~= seq![new_song]);
        self.add_element_block_after_current(block, 1);
    }

    pub fn add_song_block_after_current(&mut self, new_songs: Vec<Song<'q>>)
        requires
            old(self).wf(),
            new_songs@.len() > 0,
            old(self).songs().len() + new_songs@.len() <= i32::MAX,
        ensures
            final(self).wf(),
            final(self).max_history() == old(self).max_history(),
            if old(self).songs().len() == 0 {
                final(self).songs() == new_songs@ && final(self).position() == 0
            } else {
                final(self).songs() == placed_after(old(self).songs(), old(self).position(), new_songs@)
                    && final(self).position() == old(self).position()
            },
    {
        let len_block = new_songs.len() as i32;
        let block = Self::block_of(new_songs);
        self.add_element_block_after_current(block, len_block);
    }

    fn add_element_block_after_current(&mut self, block: Vec<Element<'q>>, len_block: i32)
        requires
            old(self).wf(),
            block@.len() > 0,
            len_block as int == block@.len(),
            old(self).songs().len() + block@.len() <= i32::MAX,
        ensures
            final(self).wf(),
            final(self).max_history() == old(self).max_history(),
            if old(self).songs().len() == 0 {
                final(self).songs() == element_songs(block@) && final(self).position() == 0
            } else {
                final(self).songs() == placed_after(old(self).songs(), old(self).position(), element_songs(block@))
                    && final(self).position() == old(self).position()
            },
    {
        let ghost es = self.elements@;
        if self.elements.len() == 0 {
            self.elements = block;
            self.len_history = 0;
        } else {
            let at = (self.len_history + 1) as usize;
            self.splice_in(at, block);
            proof {
                Self::lemma_songs_of_splice(es, at as int, block@);
            }
        }
        self.len_queue = self.len_queue + len_block;
    }

    pub fn add_song_after_album(&mut self, new_song: Song<'q>)
        requires
            old(self).wf(),
            old(self).songs().len() < i32::MAX,
        ensures
            final(self).wf(),
            final(self).max_history() == old(self).max_history(),
            if old(self).songs().len() == 0 {
                final(self).songs() == seq![new_song] && final(self).position() == 0
            } else {
                final(self).songs() == placed_after(
                    old(self).songs(),
                    album_end(old(self).songs(), old(self).position()),
                    seq![new_song],
                ) && final(self).position() == old(self).position()
            },
    {
        let mut block: Vec<Element<'q>> = Vec::new();
        block.push(Element::new(new_song));
        assert(element_songs(block@) =~= seq![new_song]);
        self.add_element_block_after_album(block, 1);
    }

    pub fn add_song_block_after_album(&mut self, new_songs: Vec<Song<'q>>)
        requires
            old(self).wf(),
            new_songs@.len() > 0,
            old(self).songs().len() + new_songs@.len() <= i32::MAX,
        ensures
            final(self).wf(),
            final(self).max_history() == old(self).max_history(),
            if old(self).songs().len() == 0 {
                final(self).songs() == new_songs@ && final(self).position() == 0
            } else {
                final(self).songs() == placed_after(
                    old(self).songs(),
                    album_end(old(self).songs(), old(self).position()),
                    new_songs@,
                ) && final(self).position() == old(self).position()
            },
    {
        let len_block = new_songs.len() as i32;
        let block = Self::block_of(new_songs);
        self.add_element_block_after_album(block, len_block);
    }

    fn add_element_block_after_album(&mut self, block: Vec<Element<'q>>, len_block: i32)
        requires
            old(self).wf(),
            block@.len() > 0,
            len_block as int == block@.len(),
            old(self).songs().len() + block@.len() <= i32::MAX,
        ensures
            final(self).wf(),
            final(self).max_history() == old(self).max_history(),
            if old(self).songs().len() == 0 {
                final(self).songs() == element_songs(block@) && final(self).position() == 0
            } else {
                final(self).songs() == placed_after(
                    old(self).songs(),
                    album_end(old(self).songs(), old(self).position()),
                    element_songs(block@),
                ) && final(self).position() == old(self).position()
            },
    {
        let ghost es = self.elements@;
        let self_current_album = self.end_of_current_album();
        match self_current_album {
            None => {
                self.elements = block;
                self.len_history = 0;
            },
            Some(current_album) => {
                proof {
                    Self::lemma_album_end_bounds(self.songs(), self.position());
                }
                let at = current_album + 1;
                self.splice_in(at, block);
                proof {
                    Self::lemma_songs_of_splice(es, at as int, block@);
                }
            },
        }
        self.len_queue = self.len_queue + len_block;
    }

    proof fn lemma_album_end_from_bounds(s: Seq<Song<'q>>, p: int, e: int)
        requires
            0 <= p <= e < s.len(),
        ensures
            e <= album_end_from(s, p, e) < s.len(),
        decreases s.len() - e,
    {
        if e + 1 < s.len() && same_album(s[e + 1], s[p]) {
            Self::lemma_album_end_from_bounds(s, p, e + 1);
        }
    }

    proof fn lemma_album_end_bounds(s: Seq<Song<'q>>, p: int)
        requires
            0 <= p < s.len(),
        ensures
            p <= album_end(s, p) < s.len(),
    {
        Self::lemma_album_end_from_bounds(s, p, p);
    }

    pub fn add_song_after_queue(&mut self, new_song: Song<'q>)
        requires
            old(self).wf(),
            old(self).songs().len() < i32::MAX,
        ensures
            final(self).wf(),
            final(self).max_history() == old(self).max_history(),
            final(self).songs() == old(self).songs().push(new_song),
            final(self).position() == old(self).position(),
    {
        let mut block: Vec<Element<'q>> = Vec::new();
        block.push(Element::new(new_song));
        assert(element_songs(block@) =~= seq![new_song]);
        self.add_element_block_after_queue(block, 1);
        assert(old(self).songs() + seq![new_song] =~= old(self).songs().push(new_song));
    }

    pub fn add_song_block_after_queue(&mut self, new_songs: Vec<Song<'q>>)
        requires
            old(self).wf(),
            new_songs@.len() > 0,
            old(self).songs().len() + new_songs@.len() <= i32::MAX,
        ensures
            final(self).wf(),
            final(self).max_history() == old(self).max_history(),
            final(self).songs() == old(self).songs() + new_songs@,
            final(self).position() == old(self).position(),
    {
        let len_block = new_songs.len() as i32;
        let block = Self::block_of(new_songs);
        self.add_element_block_after_queue(block, len_block);
    }

    fn add_element_block_after_queue(&mut self, block: Vec<Element<'q>>, len_block: i32)
        requires
            old(self).wf(),
            block@.len() > 0,
            len_block as int == block@.len(),
            old(self).songs().len() + block@.len() <= i32::MAX,
        ensures
            final(self).wf(),
            final(self).max_history() == old(self).max_history(),
            final(self).songs() == old(self).songs() + element_songs(block@),
            final(self).position() == old(self).position(),
    {
        let ghost es = self.elements@;
        let at = self.elements.len();
        self.splice_in(at, block);
        proof {
            Self::lemma_songs_of_splice(es, at as int, block@);
            assert(element_songs(es).take(at as int) =~= element_songs(es));
            assert(element_songs(es).skip(at as int) =~= Seq::<Song<'q>>::empty());
            assert(element_songs(es).take(at as int) + element_songs(block@) + element_songs(es).skip(at as int)
                =~= element_songs(es) + element_songs(block@));
        }
        self.len_queue = self.len_queue + len_block;
    }

    pub fn advance_song(&mut self)
        requires
            old(self).wf(),
        ensures
            final(self).wf(),
            final(self).max_history() == old(self).max_history(),
            ({
                let s = old(self).songs();
                let p = old(self).position();
                let moved = if s.len() > 0 && p + 1 < s.len() { p + 1 } else { p };
                (final(self).songs(), final(self).position()) == final(self).culled(s, moved)
            }),
    {
        if self.elements.len() > 0 {
            if ((self.len_history + 1) as usize) < self.elements.len() {
                self.len_history = self.len_history + 1;
            }
        }
        self.cull_excess_history();
    }

    pub fn advance_album(&mut self)
        requires
            old(self).wf(),
        ensures
            final(self).wf(),
            final(self).max_history() == old(self).max_history(),
            ({
                let s = old(self).songs();
                let p = old(self).position();
                let e = album_end(s, p);
                let moved = if s.len() == 0 { p } else if e + 1 < s.len() { e + 1 } else { e };
                (final(self).songs(), final(self).position()) == final(self).culled(s, moved)
            }),
    {
        if let Some(last_element_of_album) = self.end_of_current_album() {
            proof {
                Self::lemma_album_end_bounds(self.songs(), self.position());
            }
            if last_element_of_album + 1 < self.elements.len() {
                self.len_history = (last_element_of_album + 1) as i32;
            } else {
                self.len_history = last_element_of_album as i32;
            }
        }
        self.cull_excess_history();
    }

    pub fn deadvance_song(&mut self)
        requires
            old(self).wf(),
        ensures
            final(self).wf(),
            final(self).max_history() == old(self).max_history(),
            final(self).songs() == old(self).songs(),
            final(self).position() == if old(self).position() > 0 {
                old(self).position() - 1
            } else {
                old(self).position()
            },
    {
        if self.elements.len() > 0 {
            if self.len_history > 0 {
                self.len_history = self.len_history - 1;
            }
        }
        // restart play
    }

    pub fn deadvance_album(&mut self)
        requires
            old(self).wf(),
        ensures
            final(self).wf(),
            final(self).max_history() == old(self).max_history(),
            final(self).songs() == old(self).songs(),
            final(self).position() == if old(self).position() > 0 {
                album_start_from(old(self).songs(), old(self).position() - 1, old(self).position())
            } else {
                old(self).position()
            },
    {
        let ghost s = self.songs();
        let ghost p = self.position();
        if self.elements.len() > 0 && self.len_history > 0 {
            let pos = self.len_history as usize;
            let prev_album = self.elements[pos - 1].song.album;
            let mut first_element_of_album = pos;
            while first_element_of_album > 0
                invariant
                    s == self.songs(),
                    s.len() == self.elements@.len(),
                    p == pos,
                    0 < pos < s.len(),
                    0 <= first_element_of_album <= pos,
                    prev_album@ == s[pos - 1].album@,
                    album_start_from(s, pos - 1, first_element_of_album as int) == album_start_from(s, pos - 1, pos as int),
                ensures
                    0 <= first_element_of_album <= pos,
                    album_start_from(s, pos - 1, first_element_of_album as int) == first_element_of_album,
                    album_start_from(s, pos - 1, first_element_of_album as int) == album_start_from(s, pos - 1, pos as int),
                decreases first_element_of_album,
            {
                let element_album = self.elements[first_element_of_album - 1].song.album;
                if !same_text(prev_album, element_album) {
                    break;
                }
                first_element_of_album = first_element_of_album - 1;
            }
            proof {
                Self::lemma_album_start_bounds(s, pos - 1, pos as int);
            }
            self.len_history = first_element_of_album as i32;
        }
    }

    proof fn lemma_album_start_bounds(s: Seq<Song<'q>>, a: int, j: int)
        requires
            0 <= j <= s.len(),
        ensures
            0 <= album_start_from(s, a, j) <= j,
        decreases j,
    {
        if 0 < j <= s.len() && same_album(s[j - 1], s[a]) {
            Self::lemma_album_start_bounds(s, a, j - 1);
        }
    }

    fn cull_excess_history(&mut self)
        requires
            old(self).counts_agree(),
            old(self).songs().len() <= i32::MAX,
            0 <= old(self).position(),
            old(self).songs().len() == 0 ==> old(self).position() == 0,
            old(self).songs().len() > 0 ==> old(self).position() < old(self).songs().len(),
        ensures
            final(self).wf(),
            final(self).max_history() == old(self).max_history(),
            (final(self).songs(), final(self).position()) == old(self).culled(
                old(self).songs(),
                old(self).position(),
            ),
    {
        let ghost es = self.elements@;
        if self.max_history >= 0 && self.elements.len() > 0 {
            let history_overage: i32 = self.len_history - self.max_history;
            if history_overage > 0 {
                let rest = self.elements.split_off(history_overage as usize);
                self.elements = rest;
                self.len_queue = self.len_queue - history_overage;
                self.len_history = self.len_history - history_overage;
                assert(element_songs(self.elements@) =~= element_songs(es).skip(history_overage as int));
            } else {
                assert(element_songs(es).skip(0) =~= element_songs(es));
            }
        } else {
            assert(element_songs(es).skip(0) =~= element_songs(es));
        }
    }
}


// ---------------------------------------------------------------------------
// Laws of the queue

/// Cutting the history keeps the current song and every song after it, in
/// order; only songs before the current one are dropped.
pub proof fn law_culling_keeps_current_and_after(songs: Seq<Song>, pos: int, max: int)
    requires
        0 <= pos < songs.len(),
    ensures
        ({
            let k = excess_history(max, pos, songs.len() as int);
            &&& 0 <= k <= pos
            &&& songs.skip(k).skip(pos - k) == songs.skip(pos)
        }),
{
    let k = excess_history(max, pos, songs.len() as int);
    assert(songs.skip(k).skip(pos - k) =~= songs.skip(pos));
}

/// After culling with a bound that is not negative, at most that many songs
/// remain before the current one.
pub proof fn law_history_within_bound(len: int, pos: int, max: int)
    requires
        0 <= pos,
        max >= 0,
        len > 0,
    ensures
        pos - excess_history(max, pos, len) <= max,
        pos - excess_history(max, pos, len) >= 0,
{
}

/// A song added after the current one is the one that advancing plays next.
pub proof fn law_added_after_current_plays_next(songs: Seq<Song>, pos: int, max: int, x: Song)
    requires
        0 <= pos < songs.len(),
    ensures
        ({
            let s2 = placed_after(songs, pos, seq![x]);
            let moved = pos + 1;
            let k = excess_history(max, moved, s2.len() as int);
            &&& moved < s2.len()
            &&& s2.skip(k)[moved - k] == x
        }),
{
    let s2 = placed_after(songs, pos, seq![x]);
    assert(s2[pos + 1] == x);
}

/// Advancing one song and then going back one returns to the song that was
/// current, as long as the history may hold at least one song.
pub proof fn law_advance_then_back(songs: Seq<Song>, pos: int, max: int)
    requires
        0 <= pos,
        pos + 1 < songs.len(),
        max != 0,
    ensures
        ({
            let k = excess_history(max, pos + 1, songs.len() as int);
            let s2 = songs.skip(k);
            let p2 = pos + 1 - k;
            &&& p2 > 0
            &&& s2[p2 - 1] == songs[pos]
        }),
{
}

/// Songs added at the end of the queue leave the current song and the songs
/// before it where they were.
pub proof fn law_added_after_queue_keeps_current(songs: Seq<Song>, pos: int, block: Seq<Song>)
    requires
        0 <= pos < songs.len(),
    ensures
        (songs + block)[pos] == songs[pos],
        (songs + block).take(pos) == songs.take(pos),
{
    assert((songs + block).take(pos) =~= songs.take(pos));
}

/// Songs placed after the album being played come after every song of it:
/// the run of the current album is followed by the first song placed.
pub proof fn law_added_after_album_follow_album(songs: Seq<Song>, pos: int, block: Seq<Song>)
    requires
        0 <= pos < songs.len(),
        block.len() > 0,
    ensures
        ({
            let e = album_end(songs, pos);
            let s2 = placed_after(songs, e, block);
            &&& pos <= e < songs.len()
            &&& forall|j: int| pos <= j <= e ==> #[trigger] same_album(s2[j], songs[pos])
            &&& s2[e + 1] == block[0]
        }),
{
    lemma_album_run(songs, pos, pos);
    let e = album_end(songs, pos);
    let s2 = placed_after(songs, e, block);
    assert forall|j: int| pos <= j <= e implies #[trigger] same_album(s2[j], songs[pos]) by {
        assert(s2[j] == songs[j]);
    }
}

/// Every song from `p` up to the end of its album run shares its album.
proof fn lemma_album_run(s: Seq<Song>, p: int, e: int)
    requires
        0 <= p <= e < s.len(),
        forall|j: int| p <= j <= e ==> #[trigger] same_album(s[j], s[p]),
    ensures
        e <= album_end_from(s, p, e) < s.len(),
        forall|j: int| p <= j <= album_end_from(s, p, e) ==> #[trigger] same_album(s[j], s[p]),
    decreases s.len() - e,
{
    if e + 1 < s.len() && same_album(s[e + 1], s[p]) {
        assert forall|j: int| p <= j <= e + 1 implies #[trigger] same_album(s[j], s[p]) by {
        }
        lemma_album_run(s, p, e + 1);
    }
}

} // verus!
