//! Play events as they are read out of a user's repository: the decoded play
//! record, its normalised artist credits, and the event built from it.

use vstd::prelude::*;
use vstd::string::*;
use crate::play::{copy_opt_string, opt_chars};
use crate::time::{parse_rfc3339, rfc3339_local_year};

verus! {

pub open spec fn strings(v: Seq<String>) -> Seq<Seq<char>> {
    v.map_values(|s: String| s@)
}

pub open spec fn opt_strings(o: Option<Vec<String>>) -> Option<Seq<Seq<char>>> {
    match o {
        Some(v) => Some(strings(v@)),
        None => None,
    }
}

/// The record key prefix of play records.
pub const PLAY_COLLECTION: &'static str = "fm.teal.alpha.feed.play";

/// One artist credit of a play record in the current layout.
pub struct PlayArtist {
    pub artist_name: String,
    pub artist_mb_id: Option<String>,
}

/// A decoded play record. Current records credit artists in `artists`;
/// older ones in the parallel lists `artist_names` and `artist_mb_ids`.
pub struct Play {
    pub track_name: String,
    pub artists: Option<Vec<PlayArtist>>,
    pub artist_names: Option<Vec<String>>,
    pub artist_mb_ids: Option<Vec<String>>,
    pub duration: Option<i64>,
    pub recording_mb_id: Option<String>,
    pub track_mb_id: Option<String>,
    pub release_mb_id: Option<String>,
    pub release_name: Option<String>,
    /// When it was played, as RFC 3339 text.
    pub played_time: Option<String>,
}

/// A normalised play event.
pub struct ScrobbleRecord {
    pub uri: String,
    pub cid: String,
    pub track_name: String,
    pub artists: Vec<String>,
    pub played_time: Option<String>,
    pub duration: Option<i64>,
    pub recording_mb_id: Option<String>,
    pub track_mb_id: Option<String>,
    pub release_mb_id: Option<String>,
    pub release_name: Option<String>,
    pub artist_mb_ids: Option<Vec<String>>,
}

pub struct ScrobbleView {
    pub uri: Seq<char>,
    pub cid: Seq<char>,
    pub track_name: Seq<char>,
    pub artists: Seq<Seq<char>>,
    pub played_time: Option<Seq<char>>,
    pub duration: Option<i64>,
    pub recording_mb_id: Option<Seq<char>>,
    pub track_mb_id: Option<Seq<char>>,
    pub release_mb_id: Option<Seq<char>>,
    pub release_name: Option<Seq<char>>,
    pub artist_mb_ids: Option<Seq<Seq<char>>>,
}

impl View for ScrobbleRecord {
    type V = ScrobbleView;

    open spec fn view(&self) -> ScrobbleView {
        ScrobbleView {
            uri: self.uri@,
            cid: self.cid@,
            track_name: self.track_name@,
            artists: strings(self.artists@),
            played_time: opt_chars(self.played_time),
            duration: self.duration,
            recording_mb_id: opt_chars(self.recording_mb_id),
            track_mb_id: opt_chars(self.track_mb_id),
            release_mb_id: opt_chars(self.release_mb_id),
            release_name: opt_chars(self.release_name),
            artist_mb_ids: opt_strings(self.artist_mb_ids),
        }
    }
}

/// The identifiers present among a list of artist credits, in order.
pub open spec fn present_ids(artists: Seq<PlayArtist>) -> Seq<Seq<char>>
    decreases artists.len(),
{
    if artists.len() == 0 {
        Seq::empty()
    } else {
        let rest = present_ids(artists.drop_last());
        match artists.last().artist_mb_id {
            Some(id) => rest.push(id@),
            None => rest,
        }
    }
}

/// The artist names of a play and its artist identifiers; the identifiers
/// are `None` rather than an empty list.
pub open spec fn artist_fields(p: Play) -> (Seq<Seq<char>>, Option<Seq<Seq<char>>>) {
    match p.artists {
        Some(list) => (
            list@.map_values(|a: PlayArtist| a.artist_name@),
            if present_ids(list@).len() == 0 {
                None
            } else {
                Some(present_ids(list@))
            },
        ),
        None => (
            match p.artist_names {
                Some(names) => strings(names@),
                None => Seq::empty(),
            },
            match p.artist_mb_ids {
                Some(ids) => if ids@.len() == 0 {
                    None
                } else {
                    Some(strings(ids@))
                },
                None => None,
            },
        ),
    }
}

pub fn copy_strings(v: &Vec<String>) -> (r: Vec<String>)
    ensures
        strings(r@) == strings(v@),
{
    let mut r: Vec<String> = Vec::new();
    let mut i: usize = 0;
    while i < v.len()
        invariant
            i <= v@.len(),
            strings(r@) == strings(v@).take(i as int),
            r@.len() == i,
        decreases v@.len() - i,
    {
        let s = v[i].clone();
        assert(s@ == v@[i as int]@);
        r.push(s);
        i = i + 1;
        assert(strings(r@) =~= strings(v@).take(i as int));
    }
    assert(strings(v@).take(i as int) =~= strings(v@));
    r
}

/// Brings the two layouts of artist credits to one: the names, and the
/// identifiers present (omitted when there are none).
pub fn extract_artists_from_play(play: &Play) -> (r: (Vec<String>, Option<Vec<String>>))
    ensures
        (strings(r.0@), opt_strings(r.1)) == artist_fields(*play),
{
    match &play.artists {
        Some(list) => {
            let mut names: Vec<String> = Vec::new();
            let mut ids: Vec<String> = Vec::new();
            let mut i: usize = 0;
            while i < list.len()
                invariant
                    i <= list@.len(),
                    forall|j: int| 0 <= j < i ==> #[trigger] names@[j]@ == list@[j].artist_name@,
                    strings(ids@) == present_ids(list@.take(i as int)),
                    names@.len() == i,
                decreases list@.len() - i,
            {
                assert(list@.take(i + 1).drop_last() =~= list@.take(i as int));
                let a = &list[i];
                let name = a.artist_name.clone();
                assert(name@ == list@[i as int].artist_name@);
                names.push(name);
                match &a.artist_mb_id {
                    Some(id) => {
                        ids.push(id.clone());
                        assert(strings(ids@) =~= present_ids(list@.take(i + 1)));
                    },
                    None => {},
                }
                i = i + 1;
            }
            assert(list@.take(i as int) =~= list@);
            assert(strings(names@) =~= list@.map_values(|a: PlayArtist| a.artist_name@));
            if ids.len() == 0 {
                (names, None)
            } else {
                (names, Some(ids))
            }
        },
        None => {
            let names = match &play.artist_names {
                Some(v) => copy_strings(v),
                None => {
                    let e: Vec<String> = Vec::new();
                    assert(strings(e@) =~= Seq::<Seq<char>>::empty());
                    e
                },
            };
            let ids = match &play.artist_mb_ids {
                Some(v) => {
                    if v.len() == 0 {
                        None
                    } else {
                        Some(copy_strings(v))
                    }
                },
                None => None,
            };
            (names, ids)
        },
    }
}

/// The key of a record is the key of a play record.
pub open spec fn is_play_key_spec(rkey: Seq<char>) -> bool {
    rkey.len() >= PLAY_COLLECTION@.len() && rkey.subrange(0, PLAY_COLLECTION@.len() as int)
        == PLAY_COLLECTION@
}

pub fn is_play_key(rkey: &str) -> (r: bool)
    ensures
        r == is_play_key_spec(rkey@),
{
    let n = PLAY_COLLECTION.unicode_len();
    if rkey.unicode_len() < n {
        return false;
    }
    let mut i: usize = 0;
    while i < n
        invariant
            n == PLAY_COLLECTION@.len() <= rkey@.len(),
            i <= n,
            forall|j: int| 0 <= j < i ==> rkey@[j] == PLAY_COLLECTION@[j],
        decreases n - i,
    {
        if rkey.get_char(i) != PLAY_COLLECTION.get_char(i) {
            assert(rkey@.subrange(0, n as int)[i as int] != PLAY_COLLECTION@[i as int]);
            return false;
        }
        i = i + 1;
    }
    assert(rkey@.subrange(0, n as int) =~= PLAY_COLLECTION@);
    true
}

/// The URI of record `rkey` in the repository of `did`.
pub open spec fn record_uri(did: Seq<char>, rkey: Seq<char>) -> Seq<char> {
    "at://"@ + did + "/"@ + rkey
}

pub fn make_record_uri(did: &str, rkey: &str) -> (r: String)
    ensures
        r@ == record_uri(did@, rkey@),
{
    let mut u = String::from_str("at://");
    u.append(did);
    u.append("/");
    u.append(rkey);
    u
}

/// The event made from play record `rkey` of the repository of `did`.
pub open spec fn scrobble_of(did: Seq<char>, rkey: Seq<char>, p: Play) -> ScrobbleView {
    ScrobbleView {
        uri: record_uri(did, rkey),
        cid: Seq::empty(),
        track_name: p.track_name@,
        artists: artist_fields(p).0,
        played_time: opt_chars(p.played_time),
        duration: p.duration,
        recording_mb_id: opt_chars(p.recording_mb_id),
        track_mb_id: opt_chars(p.track_mb_id),
        release_mb_id: opt_chars(p.release_mb_id),
        release_name: opt_chars(p.release_name),
        artist_mb_ids: artist_fields(p).1,
    }
}

pub fn scrobble_from_play(did: &str, rkey: &str, play: &Play) -> (r: ScrobbleRecord)
    ensures
        r@ == scrobble_of(did@, rkey@, *play),
{
    let (artists, artist_mb_ids) = extract_artists_from_play(play);
    ScrobbleRecord {
        uri: make_record_uri(did, rkey),
        cid: String::new(),
        track_name: play.track_name.clone(),
        artists,
        played_time: copy_opt_string(&play.played_time),
        duration: play.duration,
        recording_mb_id: copy_opt_string(&play.recording_mb_id),
        track_mb_id: copy_opt_string(&play.track_mb_id),
        release_mb_id: copy_opt_string(&play.release_mb_id),
        release_name: copy_opt_string(&play.release_name),
        artist_mb_ids,
    }
}

/// One block of a repository export: its record key, and the play record it
/// decodes to (`None` when it does not decode as one).
pub struct RepoBlock {
    pub rkey: String,
    pub play: Option<Play>,
}

pub open spec fn scrobble_views(v: Seq<ScrobbleRecord>) -> Seq<ScrobbleView> {
    v.map_values(|s: ScrobbleRecord| s@)
}

/// The events of a sequence of blocks: one for each block under a play key
/// that decoded, in block order; other blocks are skipped.
pub open spec fn extracted(did: Seq<char>, blocks: Seq<RepoBlock>) -> Seq<ScrobbleView>
    decreases blocks.len(),
{
    if blocks.len() == 0 {
        Seq::empty()
    } else {
        let rest = extracted(did, blocks.drop_last());
        let b = blocks.last();
        if is_play_key_spec(b.rkey@) && b.play is Some {
            rest.push(scrobble_of(did, b.rkey@, b.play->0))
        } else {
            rest
        }
    }
}

/// Extraction does not depend on how the blocks are cut into chunks: the
/// events of two consecutive runs of blocks are the events of the first run
/// followed by those of the second.
pub proof fn lemma_extraction_chunking(did: Seq<char>, a: Seq<RepoBlock>, b: Seq<RepoBlock>)
    ensures
        extracted(did, a + b) == extracted(did, a) + extracted(did, b),
    decreases b.len(),
{
    if b.len() == 0 {
        assert(a + b =~= a);
        assert(extracted(did, a) + extracted(did, b) =~= extracted(did, a));
    } else {
        assert((a + b).drop_last() =~= a + b.drop_last());
        assert((a + b).last() == b.last());
        lemma_extraction_chunking(did, a, b.drop_last());
        let x = b.last();
        if is_play_key_spec(x.rkey@) && x.play is Some {
            assert(extracted(did, a) + extracted(did, b) =~= (extracted(did, a) + extracted(
                did,
                b.drop_last(),
            )).push(scrobble_of(did, x.rkey@, x.play->0)));
        }
    }
}

/// Collects the events of a repository export chunk by chunk.
pub struct PlayExtractor {
    pub did: String,
    pub found: Vec<ScrobbleRecord>,
}

impl PlayExtractor {
    pub fn new(did: &str) -> (r: PlayExtractor)
        ensures
            r.did@ == did@,
            r.found@.len() == 0,
    {
        PlayExtractor { did: String::from_str(did), found: Vec::new() }
    }

    /// Adds the events of one chunk of blocks.
    pub fn push_chunk(&mut self, chunk: &Vec<RepoBlock>)
        ensures
            final(self).did == old(self).did,
            scrobble_views(final(self).found@) == scrobble_views(old(self).found@) + extracted(
                old(self).did@,
                chunk@,
            ),
    {
        let ghost start = scrobble_views(self.found@);
        let mut i: usize = 0;
        while i < chunk.len()
            invariant
                self.did == old(self).did,
                start == scrobble_views(old(self).found@),
                i <= chunk@.len(),
                scrobble_views(self.found@) == start + extracted(self.did@, chunk@.take(i as int)),
            decreases chunk@.len() - i,
        {
            assert(chunk@.take(i + 1).drop_last() =~= chunk@.take(i as int));
            let b = &chunk[i];
            if is_play_key(b.rkey.as_str()) {
                match &b.play {
                    Some(p) => {
                        let s = scrobble_from_play(self.did.as_str(), b.rkey.as_str(), p);
                        let ghost before = scrobble_views(self.found@);
                        self.found.push(s);
                        assert(scrobble_views(self.found@) =~= before.push(
                            scrobble_of(self.did@, b.rkey@, *p),
                        ));
                    },
                    None => {},
                }
            }
            i = i + 1;
        }
        assert(chunk@.take(i as int) =~= chunk@);
    }
}

/// The events of a whole repository export, read as one chunk.
pub fn extract_scrobbles(did: &str, blocks: &Vec<RepoBlock>) -> (r: Vec<ScrobbleRecord>)
    ensures
        scrobble_views(r@) == extracted(did@, blocks@),
{
    let mut x = PlayExtractor::new(did);
    assert(scrobble_views(x.found@) =~= Seq::<ScrobbleView>::empty());
    x.push_chunk(blocks);
    assert(Seq::<ScrobbleView>::empty() + extracted(did@, blocks@) =~= extracted(did@, blocks@));
    x.found
}

pub fn copy_scrobble(s: &ScrobbleRecord) -> (r: ScrobbleRecord)
    ensures
        r@ == s@,
{
    ScrobbleRecord {
        uri: s.uri.clone(),
        cid: s.cid.clone(),
        track_name: s.track_name.clone(),
        artists: copy_strings(&s.artists),
        played_time: copy_opt_string(&s.played_time),
        duration: s.duration,
        recording_mb_id: copy_opt_string(&s.recording_mb_id),
        track_mb_id: copy_opt_string(&s.track_mb_id),
        release_mb_id: copy_opt_string(&s.release_mb_id),
        release_name: copy_opt_string(&s.release_name),
        artist_mb_ids: match &s.artist_mb_ids {
            Some(v) => Some(copy_strings(v)),
            None => None,
        },
    }
}

/// The event was played in `year`, read in the time zone its timestamp gives.
pub open spec fn played_in(s: ScrobbleView, year: i32) -> bool {
    match s.played_time {
        Some(t) => rfc3339_local_year(t) == Some(year),
        None => false,
    }
}

/// The events of `year`, in order (all of them without a year).
pub open spec fn of_year(ss: Seq<ScrobbleView>, year: Option<i32>) -> Seq<ScrobbleView>
    decreases ss.len(),
{
    if ss.len() == 0 {
        Seq::empty()
    } else {
        let rest = of_year(ss.drop_last(), year);
        match year {
            Some(y) => if played_in(ss.last(), y) {
                rest.push(ss.last())
            } else {
                rest
            },
            None => rest.push(ss.last()),
        }
    }
}

/// Keeps the events played in `year`; keeps all of them without a year.
pub fn scrobbles_in_year(scrobbles: &Vec<ScrobbleRecord>, year: Option<i32>) -> (r: Vec<ScrobbleRecord>)
    ensures
        scrobble_views(r@) == of_year(scrobble_views(scrobbles@), year),
{
    let ghost sv = scrobble_views(scrobbles@);
    let mut r: Vec<ScrobbleRecord> = Vec::new();
    let mut i: usize = 0;
    while i < scrobbles.len()
        invariant
            sv == scrobble_views(scrobbles@),
            i <= scrobbles@.len(),
            scrobble_views(r@) == of_year(sv.take(i as int), year),
        decreases scrobbles@.len() - i,
    {
        assert(sv.take(i + 1).drop_last() =~= sv.take(i as int));
        let s = &scrobbles[i];
        let keep = match year {
            Some(y) => match &s.played_time {
                Some(t) => match parse_rfc3339(t.as_str()) {
                    Some(parts) => parts.1 == y,
                    None => false,
                },
                None => false,
            },
            None => true,
        };
        if keep {
            let ghost before = scrobble_views(r@);
            r.push(copy_scrobble(s));
            assert(scrobble_views(r@) =~= before.push(s@));
        }
        i = i + 1;
    }
    assert(sv.take(i as int) =~= sv);
    r
}

} // verus!
