//! A stored play: one listening event as the store keeps it.

use vstd::prelude::*;

verus! {

/// The duration counted for a play whose length is unknown: three and a half
/// minutes.
pub const FALLBACK_DURATION_MS: i64 = 210_000;

/// One artist credited on a play, with its catalog identifier when known.
pub struct ArtistRef {
    pub name: String,
    pub mb_id: Option<String>,
}

/// One stored listening event.
pub struct PlayRow {
    pub user_did: String,
    /// The record's URI: unique across the store.
    pub uri: String,
    pub track_name: String,
    /// The credited artists, the primary one first.
    pub artists: Vec<ArtistRef>,
    pub recording_mb_id: Option<String>,
    pub track_mb_id: Option<String>,
    pub release_mb_id: Option<String>,
    pub release_name: Option<String>,
    pub duration_ms: Option<i32>,
    /// When it was played, in milliseconds since the Unix epoch.
    pub played_at: i64,
}

/// A stored play as plain values; each artist is a name and an optional
/// identifier.
pub struct RowView {
    pub user_did: Seq<char>,
    pub uri: Seq<char>,
    pub track_name: Seq<char>,
    pub artists: Seq<(Seq<char>, Option<Seq<char>>)>,
    pub recording_mb_id: Option<Seq<char>>,
    pub track_mb_id: Option<Seq<char>>,
    pub release_mb_id: Option<Seq<char>>,
    pub release_name: Option<Seq<char>>,
    pub duration_ms: Option<i32>,
    pub played_at: i64,
}

pub open spec fn opt_chars(o: Option<String>) -> Option<Seq<char>> {
    match o {
        Some(s) => Some(s@),
        None => None,
    }
}

impl View for PlayRow {
    type V = RowView;

    open spec fn view(&self) -> RowView {
        RowView {
            user_did: self.user_did@,
            uri: self.uri@,
            track_name: self.track_name@,
            artists: self.artists@.map_values(|a: ArtistRef| (a.name@, opt_chars(a.mb_id))),
            recording_mb_id: opt_chars(self.recording_mb_id),
            track_mb_id: opt_chars(self.track_mb_id),
            release_mb_id: opt_chars(self.release_mb_id),
            release_name: opt_chars(self.release_name),
            duration_ms: self.duration_ms,
            played_at: self.played_at,
        }
    }
}

/// The duration a play counts for in every sum.
pub open spec fn counted_ms(p: RowView) -> int {
    match p.duration_ms {
        Some(d) => d as int,
        None => FALLBACK_DURATION_MS as int,
    }
}

/// The name of the primary artist of a play, if it credits any.
pub open spec fn primary_artist(p: RowView) -> Option<Seq<char>> {
    if p.artists.len() > 0 {
        Some(p.artists[0].0)
    } else {
        None
    }
}

pub open spec fn rows_view(rows: Seq<PlayRow>) -> Seq<RowView> {
    rows.map_values(|r: PlayRow| r@)
}

impl PlayRow {
    pub fn counted_duration_ms(&self) -> (r: i64)
        ensures
            r == counted_ms(self@),
    {
        match self.duration_ms {
            Some(d) => d as i64,
            None => FALLBACK_DURATION_MS,
        }
    }
}

/// A copy of an optional string.
pub fn copy_opt_string(o: &Option<String>) -> (r: Option<String>)
    ensures
        r == *o,
        opt_chars(r) == opt_chars(*o),
{
    match o {
        Some(s) => Some(s.clone()),
        None => None,
    }
}

} // verus!
