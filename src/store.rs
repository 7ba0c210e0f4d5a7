//! The play store: idempotent insertion keyed by record URI, with missing
//! catalog identifiers inherited from earlier plays of a same-named artist,
//! track or release.

use vstd::prelude::*;
use vstd::string::*;
use crate::names::{normalize_name, normalized};
use crate::play::{copy_opt_string, opt_chars, rows_view, ArtistRef, PlayRow, RowView};
use crate::record::{ScrobbleRecord, ScrobbleView, scrobble_views};
use crate::stats::{total_day_plays, MAX_PLAYS};
use crate::time::{parse_rfc3339, rfc3339_millis, utc_year, utc_year_of};
use crate::wrapped::{is_wrapped_stats, wrapped_stats_of, WrappedStats};

verus! {

/// The identifier of the first stored play whose primary artist has the
/// matching key `key` and carries an identifier.
pub open spec fn inherited_artist_id(rows: Seq<RowView>, key: Seq<char>) -> Option<Seq<char>>
    decreases rows.len(),
{
    if rows.len() == 0 {
        None
    } else if rows[0].artists.len() > 0 && normalized(rows[0].artists[0].0) == key
        && rows[0].artists[0].1 is Some {
        rows[0].artists[0].1
    } else {
        inherited_artist_id(rows.subrange(1, rows.len() as int), key)
    }
}

/// The recording identifier of the first stored play with matching title and
/// primary artist keys that carries one.
pub open spec fn inherited_recording_id(
    rows: Seq<RowView>,
    track_key: Seq<char>,
    artist_key: Seq<char>,
) -> Option<Seq<char>>
    decreases rows.len(),
{
    if rows.len() == 0 {
        None
    } else if rows[0].artists.len() > 0 && normalized(rows[0].track_name) == track_key
        && normalized(rows[0].artists[0].0) == artist_key && rows[0].recording_mb_id is Some {
        rows[0].recording_mb_id
    } else {
        inherited_recording_id(rows.subrange(1, rows.len() as int), track_key, artist_key)
    }
}

/// The release identifier of the first stored play with a matching release
/// name key that carries one.
pub open spec fn inherited_release_id(rows: Seq<RowView>, key: Seq<char>) -> Option<Seq<char>>
    decreases rows.len(),
{
    if rows.len() == 0 {
        None
    } else if rows[0].release_name is Some && normalized(rows[0].release_name->0) == key
        && rows[0].release_mb_id is Some {
        rows[0].release_mb_id
    } else {
        inherited_release_id(rows.subrange(1, rows.len() as int), key)
    }
}

/// The identifier the event itself gives its `i`-th artist.
pub open spec fn given_artist_id(s: ScrobbleView, i: int) -> Option<Seq<char>> {
    match s.artist_mb_ids {
        Some(ids) => if 0 <= i < ids.len() {
            Some(ids[i])
        } else {
            None
        },
        None => None,
    }
}

/// The `i`-th artist of the row stored for `s`: its own identifier, else one
/// inherited.
pub open spec fn artist_entry(rows: Seq<RowView>, s: ScrobbleView, i: int) -> (
    Seq<char>,
    Option<Seq<char>>,
) {
    (
        s.artists[i],
        if given_artist_id(s, i) is Some {
            given_artist_id(s, i)
        } else {
            inherited_artist_id(rows, normalized(s.artists[i]))
        },
    )
}

/// A duration in seconds as milliseconds, when that fits in 32 bits.
pub open spec fn duration_ms_of(d: Option<i64>) -> Option<i32> {
    match d {
        Some(x) => if i32::MIN <= x * 1000 <= i32::MAX {
            Some((x * 1000) as i32)
        } else {
            None
        },
        None => None,
    }
}

/// The row stored for event `s` of user `user` played at `ms`, given the rows
/// already stored.
pub open spec fn row_for(rows: Seq<RowView>, user: Seq<char>, s: ScrobbleView, ms: i64) -> RowView {
    RowView {
        user_did: user,
        uri: s.uri,
        track_name: s.track_name,
        artists: Seq::new(s.artists.len(), |i: int| artist_entry(rows, s, i)),
        recording_mb_id: if s.recording_mb_id is Some {
            s.recording_mb_id
        } else if s.artists.len() > 0 {
            inherited_recording_id(rows, normalized(s.track_name), normalized(s.artists[0]))
        } else {
            None
        },
        track_mb_id: s.track_mb_id,
        release_mb_id: if s.release_mb_id is Some {
            s.release_mb_id
        } else if s.release_name is Some {
            inherited_release_id(rows, normalized(s.release_name->0))
        } else {
            None
        },
        release_name: s.release_name,
        duration_ms: duration_ms_of(s.duration),
        played_at: ms,
    }
}

pub open spec fn has_uri(rows: Seq<RowView>, uri: Seq<char>) -> bool {
    exists|i: int| 0 <= i < rows.len() && rows[i].uri == uri
}

/// The instant of an event, when it has a valid timestamp.
pub open spec fn event_time(s: ScrobbleView) -> Option<i64> {
    match s.played_time {
        Some(t) => rfc3339_millis(t),
        None => None,
    }
}

/// Storing one event: skipped without a valid timestamp or when its URI is
/// already stored, appended otherwise.
pub open spec fn apply_one(rows: Seq<RowView>, user: Seq<char>, s: ScrobbleView) -> Seq<RowView> {
    match event_time(s) {
        Some(ms) => if has_uri(rows, s.uri) {
            rows
        } else {
            rows.push(row_for(rows, user, s, ms))
        },
        None => rows,
    }
}

/// Storing a batch of events in order.
pub open spec fn apply_batch(rows: Seq<RowView>, user: Seq<char>, ss: Seq<ScrobbleView>) -> Seq<
    RowView,
>
    decreases ss.len(),
{
    if ss.len() == 0 {
        rows
    } else {
        apply_one(apply_batch(rows, user, ss.drop_last()), user, ss.last())
    }
}

pub open spec fn uris_unique(rows: Seq<RowView>) -> bool {
    forall|i: int, j: int| 0 <= i < j < rows.len() ==> rows[i].uri != rows[j].uri
}

/// The row is of `user` (of any user when `None`) and was played in UTC
/// year `year`.
pub open spec fn in_selection(r: RowView, user: Option<Seq<char>>, year: i32) -> bool {
    &&& match user {
        Some(u) => r.user_did == u,
        None => true,
    }
    &&& utc_year_of(r.played_at) == Some(year)
}

/// The stored rows of the selection, in store order.
pub open spec fn selected_rows(rows: Seq<RowView>, user: Option<Seq<char>>, year: i32) -> Seq<
    RowView,
>
    decreases rows.len(),
{
    if rows.len() == 0 {
        Seq::empty()
    } else {
        let rest = selected_rows(rows.drop_last(), user, year);
        if in_selection(rows.last(), user, year) {
            rest.push(rows.last())
        } else {
            rest
        }
    }
}

/// The stored rows of `user` played in UTC year `year`, in store order.
pub open spec fn user_year_rows(rows: Seq<RowView>, user: Seq<char>, year: i32) -> Seq<RowView> {
    selected_rows(rows, Some(user), year)
}

/// `s` with `r` placed after every row played no later than it and before
/// the rows played later.
pub open spec fn insert_by_time(s: Seq<RowView>, r: RowView) -> Seq<RowView>
    decreases s.len(),
{
    if s.len() == 0 || s.last().played_at <= r.played_at {
        s.push(r)
    } else {
        insert_by_time(s.drop_last(), r).push(s.last())
    }
}

/// `rows` ordered by play time; rows played at the same instant keep their
/// order.
pub open spec fn time_ordered(rows: Seq<RowView>) -> Seq<RowView>
    decreases rows.len(),
{
    if rows.len() == 0 {
        Seq::empty()
    } else {
        insert_by_time(time_ordered(rows.drop_last()), rows.last())
    }
}

/// The rows a yearly recap of `user` is computed over.
pub open spec fn recap_rows(rows: Seq<RowView>, user: Seq<char>, year: i32) -> Seq<RowView> {
    time_ordered(user_year_rows(rows, user, year))
}

proof fn lemma_insert_by_time_len(s: Seq<RowView>, r: RowView)
    ensures
        insert_by_time(s, r).len() == s.len() + 1,
    decreases s.len(),
{
    if s.len() > 0 && s.last().played_at > r.played_at {
        lemma_insert_by_time_len(s.drop_last(), r);
    }
}

proof fn lemma_time_ordered_len(rows: Seq<RowView>)
    ensures
        time_ordered(rows).len() == rows.len(),
    decreases rows.len(),
{
    if rows.len() > 0 {
        lemma_time_ordered_len(rows.drop_last());
        lemma_insert_by_time_len(time_ordered(rows.drop_last()), rows.last());
    }
}

/// The rows of `v` ordered by play time, ties in their order in `v`.
fn order_by_time(v: &Vec<PlayRow>) -> (r: Vec<PlayRow>)
    ensures
        rows_view(r@) == time_ordered(rows_view(v@)),
{
    let ghost vv = rows_view(v@);
    let mut r: Vec<PlayRow> = Vec::new();
    let mut i: usize = 0;
    while i < v.len()
        invariant
            vv == rows_view(v@),
            i <= v@.len(),
            rows_view(r@) == time_ordered(vv.take(i as int)),
        decreases v@.len() - i,
    {
        assert(vv.take(i + 1).drop_last() =~= vv.take(i as int));
        let x = copy_row(&v[i]);
        let ghost xv = x@;
        assert(xv == vv[i as int]);
        let ghost big = rows_view(r@);
        let mut j: usize = r.len();
        assert(big.take(j as int) =~= big);
        assert(big.take(j as int) + big.skip(j as int) =~= big);
        while j > 0 && r[j - 1].played_at > x.played_at
            invariant
                big == rows_view(r@),
                j <= r@.len(),
                xv == x@,
                insert_by_time(big, xv) == insert_by_time(big.take(j as int), xv) + big.skip(
                    j as int,
                ),
            decreases j,
        {
            let ghost pre = big.take(j as int);
            assert(pre.drop_last() =~= big.take(j - 1));
            assert(pre.last() == big[j - 1]);
            assert(insert_by_time(pre, xv) == insert_by_time(big.take(j - 1), xv).push(big[j - 1]));
            assert(insert_by_time(big.take(j - 1), xv).push(big[j - 1]) + big.skip(j as int)
                =~= insert_by_time(big.take(j - 1), xv) + big.skip(j - 1));
            j = j - 1;
        }
        assert(insert_by_time(big.take(j as int), xv) == big.take(j as int).push(xv));
        r.insert(j, x);
        assert(rows_view(r@) =~= big.take(j as int).push(xv) + big.skip(j as int));
        i = i + 1;
    }
    assert(vv.take(i as int) =~= vv);
    r
}

proof fn lemma_selected_rows_len(rows: Seq<RowView>, user: Option<Seq<char>>, year: i32)
    ensures
        selected_rows(rows, user, year).len() <= rows.len(),
    decreases rows.len(),
{
    if rows.len() > 0 {
        lemma_selected_rows_len(rows.drop_last(), user, year);
    }
}

pub fn copy_row(p: &PlayRow) -> (r: PlayRow)
    ensures
        r@ == p@,
{
    let mut artists: Vec<ArtistRef> = Vec::new();
    let mut i: usize = 0;
    while i < p.artists.len()
        invariant
            i <= p.artists@.len(),
            artists@.len() == i,
            forall|j: int| 0 <= j < i ==> #[trigger] artists@[j].name@ == p.artists@[j].name@
                && opt_chars(artists@[j].mb_id) == opt_chars(
                p.artists@[j].mb_id,
            ),
        decreases p.artists@.len() - i,
    {
        let a = &p.artists[i];
        artists.push(ArtistRef { name: a.name.clone(), mb_id: copy_opt_string(&a.mb_id) });
        i = i + 1;
    }
    let r = PlayRow {
        user_did: p.user_did.clone(),
        uri: p.uri.clone(),
        track_name: p.track_name.clone(),
        artists,
        recording_mb_id: copy_opt_string(&p.recording_mb_id),
        track_mb_id: copy_opt_string(&p.track_mb_id),
        release_mb_id: copy_opt_string(&p.release_mb_id),
        release_name: copy_opt_string(&p.release_name),
        duration_ms: p.duration_ms,
        played_at: p.played_at,
    };
    assert(r@.artists =~= p@.artists);
    r
}

/// The stored plays of all users, each record URI at most once.
pub struct PlayStore {
    pub rows: Vec<PlayRow>,
}

impl View for PlayStore {
    type V = Seq<RowView>;

    open spec fn view(&self) -> Seq<RowView> {
        rows_view(self.rows@)
    }
}

impl PlayStore {
    pub open spec fn wf(&self) -> bool {
        uris_unique(self@)
    }

    pub fn new() -> (r: PlayStore)
        ensures
            r.wf(),
            r@.len() == 0,
    {
        let r = PlayStore { rows: Vec::new() };
        assert(r@ =~= Seq::<RowView>::empty());
        r
    }

    pub fn len(&self) -> (r: usize)
        ensures
            r == self@.len(),
    {
        self.rows.len()
    }

    fn contains_uri(&self, uri: &String) -> (r: bool)
        ensures
            r == has_uri(self@, uri@),
    {
        let mut i: usize = 0;
        while i < self.rows.len()
            invariant
                i <= self.rows@.len(),
                forall|j: int| 0 <= j < i ==> self@[j].uri != uri@,
            decreases self.rows@.len() - i,
        {
            if self.rows[i].uri.eq(uri) {
                assert(self@[i as int].uri == uri@);
                return true;
            }
            i = i + 1;
        }
        false
    }

    fn artist_id_for(&self, key: &String) -> (r: Option<String>)
        ensures
            opt_chars(r) == inherited_artist_id(self@, key@),
    {
        let n = self.rows.len();
        let mut i: usize = 0;
        assert(self@.subrange(0, n as int) =~= self@);
        while i < n
            invariant
                n == self@.len(),
                i <= n,
                inherited_artist_id(self@, key@) == inherited_artist_id(
                    self@.subrange(i as int, n as int),
                    key@,
                ),
            decreases n - i,
        {
            let ghost rest = self@.subrange(i as int, n as int);
            assert(rest[0] == self@[i as int]);
            let row = &self.rows[i];
            if row.artists.len() > 0 && row.artists[0].mb_id.is_some() {
                let k = normalize_name(row.artists[0].name.as_str());
                if k.eq(key) {
                    return copy_opt_string(&row.artists[0].mb_id);
                }
            }
            assert(rest.subrange(1, rest.len() as int) =~= self@.subrange(i + 1, n as int));
            i = i + 1;
        }
        None
    }

    fn recording_id_for(&self, track_key: &String, artist_key: &String) -> (r: Option<String>)
        ensures
            opt_chars(r) == inherited_recording_id(self@, track_key@, artist_key@),
    {
        let n = self.rows.len();
        let mut i: usize = 0;
        assert(self@.subrange(0, n as int) =~= self@);
        while i < n
            invariant
                n == self@.len(),
                i <= n,
                inherited_recording_id(self@, track_key@, artist_key@) == inherited_recording_id(
                    self@.subrange(i as int, n as int),
                    track_key@,
                    artist_key@,
                ),
            decreases n - i,
        {
            let ghost rest = self@.subrange(i as int, n as int);
            assert(rest[0] == self@[i as int]);
            let row = &self.rows[i];
            if row.artists.len() > 0 && row.recording_mb_id.is_some() {
                let kt = normalize_name(row.track_name.as_str());
                let ka = normalize_name(row.artists[0].name.as_str());
                if kt.eq(track_key) && ka.eq(artist_key) {
                    return copy_opt_string(&row.recording_mb_id);
                }
            }
            assert(rest.subrange(1, rest.len() as int) =~= self@.subrange(i + 1, n as int));
            i = i + 1;
        }
        None
    }

    fn release_id_for(&self, key: &String) -> (r: Option<String>)
        ensures
            opt_chars(r) == inherited_release_id(self@, key@),
    {
        let n = self.rows.len();
        let mut i: usize = 0;
        assert(self@.subrange(0, n as int) =~= self@);
        while i < n
            invariant
                n == self@.len(),
                i <= n,
                inherited_release_id(self@, key@) == inherited_release_id(
                    self@.subrange(i as int, n as int),
                    key@,
                ),
            decreases n - i,
        {
            let ghost rest = self@.subrange(i as int, n as int);
            assert(rest[0] == self@[i as int]);
            let row = &self.rows[i];
            match &row.release_name {
                Some(name) => {
                    if row.release_mb_id.is_some() {
                        let k = normalize_name(name.as_str());
                        if k.eq(key) {
                            return copy_opt_string(&row.release_mb_id);
                        }
                    }
                },
                None => {},
            }
            assert(rest.subrange(1, rest.len() as int) =~= self@.subrange(i + 1, n as int));
            i = i + 1;
        }
        None
    }

    fn build_row(&self, user_did: &str, s: &ScrobbleRecord, ms: i64) -> (r: PlayRow)
        ensures
            r@ == row_for(self@, user_did@, s@, ms),
    {
        let ghost sv = s@;
        let mut artists: Vec<ArtistRef> = Vec::new();
        let mut i: usize = 0;
        while i < s.artists.len()
            invariant
                sv == s@,
                i <= s.artists@.len(),
                artists@.len() == i,
                forall|j: int|
                    0 <= j < i ==> (#[trigger] artists@[j].name@, opt_chars(
                        artists@[j].mb_id,
                    )) == artist_entry(self@, sv, j),
            decreases s.artists@.len() - i,
        {
            let name = &s.artists[i];
            let given: Option<String> = match &s.artist_mb_ids {
                Some(ids) => if i < ids.len() {
                    Some(ids[i].clone())
                } else {
                    None
                },
                None => None,
            };
            let mb_id = match given {
                Some(id) => Some(id),
                None => {
                    let key = normalize_name(name.as_str());
                    self.artist_id_for(&key)
                },
            };
            artists.push(ArtistRef { name: name.clone(), mb_id });
            i = i + 1;
        }
        let recording_mb_id = match &s.recording_mb_id {
            Some(id) => Some(id.clone()),
            None => if s.artists.len() > 0 {
                let kt = normalize_name(s.track_name.as_str());
                let ka = normalize_name(s.artists[0].as_str());
                self.recording_id_for(&kt, &ka)
            } else {
                None
            },
        };
        let release_mb_id = match &s.release_mb_id {
            Some(id) => Some(id.clone()),
            None => match &s.release_name {
                Some(name) => {
                    let k = normalize_name(name.as_str());
                    self.release_id_for(&k)
                },
                None => None,
            },
        };
        let duration_ms: Option<i32> = match s.duration {
            Some(d) => if -2_147_483 <= d && d <= 2_147_483 {
                Some((d * 1000) as i32)
            } else {
                None
            },
            None => None,
        };
        let r = PlayRow {
            user_did: String::from_str(user_did),
            uri: s.uri.clone(),
            track_name: s.track_name.clone(),
            artists,
            recording_mb_id,
            track_mb_id: copy_opt_string(&s.track_mb_id),
            release_mb_id,
            release_name: copy_opt_string(&s.release_name),
            duration_ms,
            played_at: ms,
        };
        assert(r@.artists =~= row_for(self@, user_did@, sv, ms).artists);
        r
    }

    /// Stores one event (see `apply_one`); returns whether a row was added.
    pub fn store_play(&mut self, user_did: &str, s: &ScrobbleRecord) -> (added: bool)
        requires
            old(self).wf(),
        ensures
            final(self).wf(),
            final(self)@ == apply_one(old(self)@, user_did@, s@),
            added == (final(self)@.len() == old(self)@.len() + 1),
    {
        let ms = match &s.played_time {
            Some(t) => match parse_rfc3339(t.as_str()) {
                Some(parts) => parts.0,
                None => {
                    return false;
                },
            },
            None => {
                return false;
            },
        };
        if self.contains_uri(&s.uri) {
            return false;
        }
        let row = self.build_row(user_did, s, ms);
        let ghost before = self@;
        self.rows.push(row);
        assert(self@ =~= before.push(row_for(before, user_did@, s@, ms)));
        true
    }

    /// Stores a batch of events of one user, in order; events without a
    /// valid timestamp are skipped and an already stored URI is left as it
    /// is. Returns how many rows were added.
    pub fn store_user_plays(&mut self, user_did: &str, scrobbles: &Vec<ScrobbleRecord>) -> (added:
        usize)
        requires
            old(self).wf(),
        ensures
            final(self).wf(),
            final(self)@ == apply_batch(old(self)@, user_did@, scrobble_views(scrobbles@)),
            added == final(self)@.len() - old(self)@.len(),
    {
        let ghost start = self@;
        let mut added: usize = 0;
        let mut i: usize = 0;
        while i < scrobbles.len()
            invariant
                self.wf(),
                i <= scrobbles@.len(),
                self@ == apply_batch(start, user_did@, scrobble_views(scrobbles@).take(i as int)),
                self@.len() == start.len() + added,
                added <= i,
            decreases scrobbles@.len() - i,
        {
            assert(scrobble_views(scrobbles@).take(i + 1).drop_last() =~= scrobble_views(
                scrobbles@,
            ).take(i as int));
            if self.store_play(user_did, &scrobbles[i]) {
                added = added + 1;
            }
            i = i + 1;
        }
        assert(scrobble_views(scrobbles@).take(i as int) =~= scrobble_views(scrobbles@));
        added
    }
}

/// After a batch, every event of it that has a valid timestamp has its URI
/// stored.
proof fn lemma_batch_stores_uris(rows: Seq<RowView>, user: Seq<char>, ss: Seq<ScrobbleView>)
    ensures
        forall|k: int|
            0 <= k < ss.len() && event_time(#[trigger] ss[k]) is Some ==> has_uri(
                apply_batch(rows, user, ss),
                ss[k].uri,
            ),
    decreases ss.len(),
{
    if ss.len() > 0 {
        let pre = ss.drop_last();
        lemma_batch_stores_uris(rows, user, pre);
        let mid = apply_batch(rows, user, pre);
        let after = apply_batch(rows, user, ss);
        assert(after == apply_one(mid, user, ss.last()));
        assert forall|k: int|
            0 <= k < ss.len() && event_time(#[trigger] ss[k]) is Some implies has_uri(
                after,
                ss[k].uri,
            ) by {
            if k < ss.len() - 1 {
                assert(pre[k] == ss[k]);
                assert(has_uri(mid, ss[k].uri));
                let i = choose|i: int| 0 <= i < mid.len() && mid[i].uri == ss[k].uri;
                if after.len() > mid.len() {
                    assert(after[i] == mid[i]);
                }
            } else {
                if !has_uri(mid, ss[k].uri) {
                    assert(after[mid.len() as int].uri == ss[k].uri);
                }
            }
        }
    }
}

proof fn lemma_batch_of_stored(rows: Seq<RowView>, user: Seq<char>, ss: Seq<ScrobbleView>)
    requires
        forall|k: int|
            0 <= k < ss.len() && event_time(#[trigger] ss[k]) is Some ==> has_uri(rows, ss[k].uri),
    ensures
        apply_batch(rows, user, ss) == rows,
    decreases ss.len(),
{
    if ss.len() > 0 {
        let pre = ss.drop_last();
        assert forall|k: int|
            0 <= k < pre.len() && event_time(#[trigger] pre[k]) is Some implies has_uri(
                rows,
                pre[k].uri,
            ) by {
            assert(pre[k] == ss[k]);
        }
        lemma_batch_of_stored(rows, user, pre);
        assert(ss.last() == ss[ss.len() - 1]);
    }
}

/// Importing the same events twice leaves the store as importing them once.
pub proof fn lemma_import_idempotent(rows: Seq<RowView>, user: Seq<char>, ss: Seq<ScrobbleView>)
    ensures
        apply_batch(apply_batch(rows, user, ss), user, ss) == apply_batch(rows, user, ss),
{
    lemma_batch_stores_uris(rows, user, ss);
    lemma_batch_of_stored(apply_batch(rows, user, ss), user, ss);
}

/// Storing an event never changes a stored row, so no stored identifier is
/// ever overwritten; a row it adds keeps every identifier the event gives
/// and fills only the missing ones, from earlier rows.
pub proof fn lemma_inheritance_only_fills(rows: Seq<RowView>, user: Seq<char>, s: ScrobbleView)
    ensures
        apply_one(rows, user, s).len() >= rows.len(),
        apply_one(rows, user, s).take(rows.len() as int) == rows,
        apply_one(rows, user, s).len() > rows.len() ==> {
            let added = apply_one(rows, user, s)[rows.len() as int];
            &&& added.artists.len() == s.artists.len()
            &&& forall|i: int|
                0 <= i < s.artists.len() ==> {
                    &&& given_artist_id(s, i) is Some ==> #[trigger] added.artists[i].1
                        == given_artist_id(s, i)
                    &&& given_artist_id(s, i) is None ==> added.artists[i].1
                        == inherited_artist_id(rows, normalized(s.artists[i]))
                }
            &&& s.recording_mb_id is Some ==> added.recording_mb_id == s.recording_mb_id
            &&& s.release_mb_id is Some ==> added.release_mb_id == s.release_mb_id
            &&& added.track_mb_id == s.track_mb_id
        },
{
    assert(rows.take(rows.len() as int) =~= rows);
    let after = apply_one(rows, user, s);
    if after.len() > rows.len() {
        assert(after.take(rows.len() as int) =~= rows);
    }
}

impl PlayStore {
    /// The stored rows of the selection, in store order.
    fn select_rows(&self, user_did: Option<&str>, year: i32) -> (r: Vec<PlayRow>)
        ensures
            rows_view(r@) == selected_rows(
                self@,
                match user_did {
                    Some(u) => Some(u@),
                    None => None,
                },
                year,
            ),
            r@.len() <= self@.len(),
    {
        let ghost user = match user_did {
            Some(u) => Some(u@),
            None => None,
        };
        let mut r: Vec<PlayRow> = Vec::new();
        let mut i: usize = 0;
        while i < self.rows.len()
            invariant
                user == match user_did {
                    Some(u) => Some(u@),
                    None => None,
                },
                i <= self@.len(),
                rows_view(r@) == selected_rows(self@.take(i as int), user, year),
            decreases self@.len() - i,
        {
            assert(self@.take(i + 1).drop_last() =~= self@.take(i as int));
            let row = &self.rows[i];
            let of_user = match user_did {
                Some(u) => same_text(&row.user_did, u),
                None => true,
            };
            if of_user {
                match utc_year(row.played_at) {
                    Some(y) => {
                        if y == year {
                            let ghost before = rows_view(r@);
                            r.push(copy_row(row));
                            assert(rows_view(r@) =~= before.push(self@[i as int]));
                        }
                    },
                    None => {},
                }
            }
            i = i + 1;
        }
        assert(self@.take(i as int) =~= self@);
        proof {
            lemma_selected_rows_len(self@, user, year);
        }
        r
    }

    /// The plays of `user_did` in UTC year `year`, ordered by play time, ties
    /// in store order.
    pub fn plays_for_year(&self, user_did: &str, year: i32) -> (r: Vec<PlayRow>)
        ensures
            rows_view(r@) == recap_rows(self@, user_did@, year),
            r@.len() <= self@.len(),
    {
        let chosen = self.select_rows(Some(user_did), year);
        let r = order_by_time(&chosen);
        proof {
            lemma_time_ordered_len(rows_view(chosen@));
        }
        r
    }

    /// The plays of all users in UTC year `year`, ordered by play time, ties
    /// in store order.
    pub fn all_plays_for_year(&self, year: i32) -> (r: Vec<PlayRow>)
        ensures
            rows_view(r@) == time_ordered(selected_rows(self@, None, year)),
            r@.len() <= self@.len(),
    {
        let chosen = self.select_rows(None, year);
        let r = order_by_time(&chosen);
        proof {
            lemma_time_ordered_len(rows_view(chosen@));
        }
        r
    }

    /// The yearly recap statistics of `user_did` for UTC year `year`,
    /// computed over that user's plays of that year in order of play time.
    pub fn calculate_wrapped_stats(&self, user_did: &str, year: i32) -> (r: WrappedStats)
        requires
            self@.len() <= MAX_PLAYS,
        ensures
            is_wrapped_stats(recap_rows(self@, user_did@, year), r),
    {
        let plays = self.plays_for_year(user_did, year);
        wrapped_stats_of(&plays)
    }
}

fn same_text(a: &String, b: &str) -> (r: bool)
    ensures
        r == (a@ == b@),
{
    let n = b.unicode_len();
    if a.as_str().unicode_len() != n {
        return false;
    }
    let mut i: usize = 0;
    while i < n
        invariant
            n == b@.len() == a@.len(),
            i <= n,
            forall|j: int| 0 <= j < i ==> a@[j] == b@[j],
        decreases n - i,
    {
        if a.as_str().get_char(i) != b.get_char(i) {
            return false;
        }
        i = i + 1;
    }
    assert(a@ =~= b@);
    true
}

/// The play total of a user's year agrees three ways: the statistics'
/// total, the sum of the daily play counts, and the number of stored plays
/// of that user in that year.
pub proof fn lemma_play_totals_agree(rows: Seq<RowView>, user: Seq<char>, year: i32, r: WrappedStats)
    requires
        is_wrapped_stats(recap_rows(rows, user, year), r),
    ensures
        r.total_plays == total_day_plays(r.daily_plays@),
        r.total_plays == user_year_rows(rows, user, year).len(),
{
    lemma_time_ordered_len(user_year_rows(rows, user, year));
}

/// Importing the same events a second time leaves every user's recap rows,
/// and so every recap, as after the first import.
pub proof fn lemma_reimport_same_recap(
    rows: Seq<RowView>,
    importer: Seq<char>,
    ss: Seq<ScrobbleView>,
    user: Seq<char>,
    year: i32,
)
    ensures
        recap_rows(apply_batch(apply_batch(rows, importer, ss), importer, ss), user, year)
            == recap_rows(apply_batch(rows, importer, ss), user, year),
{
    lemma_import_idempotent(rows, importer, ss);
}

/// The identifier of the first credit, over the stored plays in order and
/// each play's artists in order, whose name has the matching key `key` and
/// that carries an identifier.
pub open spec fn credited_artist_id(rows: Seq<RowView>, key: Seq<char>) -> Option<Seq<char>>
    decreases rows.len(),
{
    if rows.len() == 0 {
        None
    } else {
        match credit_id_in(rows[0].artists, key) {
            Some(id) => Some(id),
            None => credited_artist_id(rows.subrange(1, rows.len() as int), key),
        }
    }
}

/// The identifier of the first of `artists` with the matching key `key` that
/// carries one.
pub open spec fn credit_id_in(artists: Seq<(Seq<char>, Option<Seq<char>>)>, key: Seq<char>) -> Option<
    Seq<char>,
>
    decreases artists.len(),
{
    if artists.len() == 0 {
        None
    } else if normalized(artists[0].0) == key && artists[0].1 is Some {
        artists[0].1
    } else {
        credit_id_in(artists.subrange(1, artists.len() as int), key)
    }
}

/// A stored row with its missing identifiers filled from the rows `rows`
/// (the store as it was before the backfill).
pub open spec fn backfilled_row(rows: Seq<RowView>, r: RowView) -> RowView {
    RowView {
        artists: r.artists.map_values(
            |a: (Seq<char>, Option<Seq<char>>)|
                if a.1 is Some {
                    a
                } else {
                    (a.0, credited_artist_id(rows, normalized(a.0)))
                },
        ),
        recording_mb_id: if r.recording_mb_id is Some {
            r.recording_mb_id
        } else if r.artists.len() > 0 {
            inherited_recording_id(rows, normalized(r.track_name), normalized(r.artists[0].0))
        } else {
            None
        },
        release_mb_id: if r.release_mb_id is Some {
            r.release_mb_id
        } else if r.release_name is Some {
            inherited_release_id(rows, normalized(r.release_name->0))
        } else {
            None
        },
        ..r
    }
}

pub open spec fn backfilled(rows: Seq<RowView>) -> Seq<RowView> {
    rows.map_values(|r: RowView| backfilled_row(rows, r))
}

impl PlayStore {
    fn credited_id_for(&self, key: &String) -> (r: Option<String>)
        ensures
            opt_chars(r) == credited_artist_id(self@, key@),
    {
        let n = self.rows.len();
        let mut i: usize = 0;
        assert(self@.subrange(0, n as int) =~= self@);
        while i < n
            invariant
                n == self@.len(),
                i <= n,
                credited_artist_id(self@, key@) == credited_artist_id(
                    self@.subrange(i as int, n as int),
                    key@,
                ),
            decreases n - i,
        {
            let ghost rest = self@.subrange(i as int, n as int);
            assert(rest[0] == self@[i as int]);
            let artists = &self.rows[i].artists;
            let ghost av = self@[i as int].artists;
            let m = artists.len();
            let mut j: usize = 0;
            assert(av.subrange(0, m as int) =~= av);
            while j < m
                invariant
                    n == self@.len(),
                    i < n,
                    rest == self@.subrange(i as int, n as int),
                    av == self@[i as int].artists,
                    credited_artist_id(self@, key@) == credited_artist_id(rest, key@),
                    m == artists@.len() == av.len(),
                    av == artists@.map_values(|a: ArtistRef| (a.name@, opt_chars(a.mb_id))),
                    j <= m,
                    credit_id_in(av, key@) == credit_id_in(av.subrange(j as int, m as int), key@),
                decreases m - j,
            {
                let ghost tail = av.subrange(j as int, m as int);
                assert(tail[0] == av[j as int]);
                let a = &artists[j];
                assert(av[j as int] == (a.name@, opt_chars(a.mb_id)));
                if a.mb_id.is_some() {
                    let k = normalize_name(a.name.as_str());
                    if k.eq(key) {
                        assert(credit_id_in(tail, key@) == opt_chars(a.mb_id));
                        assert(rest[0].artists == av);
                        return copy_opt_string(&a.mb_id);
                    }
                }
                assert(tail.subrange(1, tail.len() as int) =~= av.subrange(j + 1, m as int));
                j = j + 1;
            }
            assert(av.subrange(m as int, m as int) =~= Seq::<(Seq<char>, Option<Seq<char>>)>::empty());
            assert(rest.subrange(1, rest.len() as int) =~= self@.subrange(i + 1, n as int));
            i = i + 1;
        }
        None
    }

    /// Fills the missing artist, recording and release identifiers of every
    /// stored play from the plays stored so far (as they were before this
    /// call), by matching name keys; identifiers already present stay.
    /// Returns how many plays changed.
    pub fn backfill_identifiers(&mut self) -> (changed: usize)
        requires
            old(self).wf(),
        ensures
            final(self).wf(),
            final(self)@ == backfilled(old(self)@),
            changed <= final(self)@.len(),
    {
        let ghost before = self@;
        let n = self.rows.len();
        let mut filled: Vec<PlayRow> = Vec::new();
        let mut changed: usize = 0;
        let mut i: usize = 0;
        while i < n
            invariant
                before == self@,
                n == self@.len(),
                i <= n,
                changed <= i,
                rows_view(filled@) == backfilled(before).take(i as int),
            decreases n - i,
        {
            let row = &self.rows[i];
            let ghost rv = before[i as int];
            let mut artists: Vec<ArtistRef> = Vec::new();
            let mut any = false;
            let mut j: usize = 0;
            while j < row.artists.len()
                invariant
                    before == self@,
                    i < n == self@.len(),
                    rv == before[i as int],
                    *row == self.rows@[i as int],
                    rv == row@,
                    j <= row.artists@.len(),
                    artists@.len() == j,
                    forall|x: int|
                        0 <= x < j ==> (#[trigger] artists@[x].name@, opt_chars(
                            artists@[x].mb_id,
                        )) == backfilled_row(before, rv).artists[x],
                decreases row.artists@.len() - j,
            {
                let a = &row.artists[j];
                assert(rv.artists[j as int] == (a.name@, opt_chars(a.mb_id)));
                let mb_id = match &a.mb_id {
                    Some(id) => Some(id.clone()),
                    None => {
                        let key = normalize_name(a.name.as_str());
                        let found = self.credited_id_for(&key);
                        if found.is_some() {
                            any = true;
                        }
                        found
                    },
                };
                artists.push(ArtistRef { name: a.name.clone(), mb_id });
                j = j + 1;
            }
            let recording_mb_id = match &row.recording_mb_id {
                Some(id) => Some(id.clone()),
                None => if row.artists.len() > 0 {
                    let kt = normalize_name(row.track_name.as_str());
                    let ka = normalize_name(row.artists[0].name.as_str());
                    let found = self.recording_id_for(&kt, &ka);
                    if found.is_some() {
                        any = true;
                    }
                    found
                } else {
                    None
                },
            };
            let release_mb_id = match &row.release_mb_id {
                Some(id) => Some(id.clone()),
                None => match &row.release_name {
                    Some(name) => {
                        let k = normalize_name(name.as_str());
                        let found = self.release_id_for(&k);
                        if found.is_some() {
                            any = true;
                        }
                        found
                    },
                    None => None,
                },
            };
            let new_row = PlayRow {
                user_did: row.user_did.clone(),
                uri: row.uri.clone(),
                track_name: row.track_name.clone(),
                artists,
                recording_mb_id,
                track_mb_id: copy_opt_string(&row.track_mb_id),
                release_mb_id,
                release_name: copy_opt_string(&row.release_name),
                duration_ms: row.duration_ms,
                played_at: row.played_at,
            };
            assert(new_row@.artists =~= backfilled_row(before, rv).artists);
            assert(new_row@ == backfilled_row(before, rv));
            let ghost old_filled = rows_view(filled@);
            filled.push(new_row);
            assert(rows_view(filled@) =~= old_filled.push(backfilled_row(before, rv)));
            assert(backfilled(before).take(i + 1) =~= backfilled(before).take(i as int).push(
                backfilled_row(before, rv),
            ));
            if any {
                changed = changed + 1;
            }
            i = i + 1;
        }
        assert(backfilled(before).take(i as int) =~= backfilled(before));
        self.rows = filled;
        assert forall|a: int, b: int| 0 <= a < b < self@.len() implies self@[a].uri != self@[b].uri by {
            assert(self@[a].uri == before[a].uri);
            assert(self@[b].uri == before[b].uri);
        }
        changed
    }
}

/// A backfill keeps every stored play's facts and every identifier it
/// already has; it only fills missing ones.
pub proof fn lemma_backfill_only_fills(rows: Seq<RowView>)
    ensures
        backfilled(rows).len() == rows.len(),
        forall|i: int|
            0 <= i < rows.len() ==> {
                let (o, f) = (rows[i], #[trigger] backfilled(rows)[i]);
                &&& f.uri == o.uri && f.user_did == o.user_did && f.track_name == o.track_name
                &&& f.played_at == o.played_at && f.duration_ms == o.duration_ms
                &&& f.artists.len() == o.artists.len()
                &&& forall|j: int|
                    0 <= j < o.artists.len() ==> #[trigger] f.artists[j].0 == o.artists[j].0 && (
                    o.artists[j].1 is Some ==> f.artists[j].1 == o.artists[j].1)
                &&& o.recording_mb_id is Some ==> f.recording_mb_id == o.recording_mb_id
                &&& o.release_mb_id is Some ==> f.release_mb_id == o.release_mb_id
                &&& f.track_mb_id == o.track_mb_id && f.release_name == o.release_name
            },
{
}

} // verus!
