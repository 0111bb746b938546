//! Songs and where they are played from.
use vstd::prelude::*;

verus! {

/// Where a song's audio comes from.
#[derive(Debug, Clone, Copy)]
pub enum Link<'a> {
    Local(&'a str),
    Plex(&'a str),
    Spotify(&'a str),
    Youtube(&'a str),
}

/// A song, described by borrowed text.
#[derive(Debug, Clone, Copy)]
pub struct Song<'a> {
    pub title: &'a str,
    pub album: &'a str,
    pub artist: &'a str,
    pub link: Link<'a>,
}

/// Two songs belong to the same album when their album names spell the same text.
pub open spec fn same_album(a: Song, b: Song) -> bool {
    a.album@ == b.album@
}

} // verus!
