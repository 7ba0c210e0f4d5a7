//! The yearly recap bundle of one user: totals, rankings, and the
//! time-based metrics of `stats`.

use vstd::prelude::*;
use crate::group::{
    distinct_count, first_index, group_key, group_names, is_top, lemma_first_occurrence, name_count,
    name_weight, top_groups, views, Key, NameGroup,
};
use crate::play::{
    counted_ms, copy_opt_string, opt_chars, primary_artist, rows_view, PlayRow, RowView,
    FALLBACK_DURATION_MS,
};
use crate::span::is_longest_span;
use crate::stats::{
    calculate_longest_streak, counted_totals, daily_activity, day_kinds, days_of_plays,
    hour_count, hourly_distribution, is_daily_activity, longest_session_ms, nearest_minute,
    part_counted, part_days, play_days, play_times, quotient_toward_zero, round_to_minutes,
    top_hour, total_counted, total_day_plays, average_toward_zero, DayActivity, MAX_PLAYS,
    SESSION_GAP_MS,
};

verus! {

/// The primary artist of every play that credits one, keyed by name alone.
pub open spec fn artist_keys(plays: Seq<RowView>) -> Seq<Key>
    decreases plays.len(),
{
    if plays.len() == 0 {
        Seq::empty()
    } else {
        let rest = artist_keys(plays.drop_last());
        match primary_artist(plays.last()) {
            Some(a) => rest.push((a, Seq::empty())),
            None => rest,
        }
    }
}

/// The counted duration of every play that credits an artist.
pub open spec fn artist_weights(plays: Seq<RowView>) -> Seq<i64>
    decreases plays.len(),
{
    if plays.len() == 0 {
        Seq::empty()
    } else {
        let rest = artist_weights(plays.drop_last());
        match primary_artist(plays.last()) {
            Some(a) => rest.push(counted_ms(plays.last()) as i64),
            None => rest,
        }
    }
}

/// Every play keyed by its track title and primary artist (empty when it
/// credits none).
pub open spec fn track_keys(plays: Seq<RowView>) -> Seq<Key> {
    plays.map_values(
        |p: RowView|
            (
                p.track_name,
                match primary_artist(p) {
                    Some(a) => a,
                    None => Seq::empty(),
                },
            ),
    )
}

/// Every play keyed by its track title alone.
pub open spec fn title_keys(plays: Seq<RowView>) -> Seq<Key> {
    plays.map_values(|p: RowView| (p.track_name, Seq::<char>::empty()))
}

pub open spec fn counted_weights(plays: Seq<RowView>) -> Seq<i64> {
    plays.map_values(|p: RowView| counted_ms(p) as i64)
}

/// The titles of the plays whose primary artist is `a`.
pub open spec fn titles_by(plays: Seq<RowView>, a: Seq<char>) -> Seq<Key>
    decreases plays.len(),
{
    if plays.len() == 0 {
        Seq::empty()
    } else {
        let rest = titles_by(plays.drop_last(), a);
        if primary_artist(plays.last()) == Some(a) {
            rest.push((plays.last().track_name, Seq::empty()))
        } else {
            rest
        }
    }
}

/// The largest known duration among the plays of title `t` by primary artist `a`.
pub open spec fn longest_known(plays: Seq<RowView>, a: Seq<char>, t: Seq<char>) -> Option<int>
    decreases plays.len(),
{
    if plays.len() == 0 {
        None
    } else {
        let rest = longest_known(plays.drop_last(), a, t);
        let p = plays.last();
        if primary_artist(p) == Some(a) && p.track_name == t && p.duration_ms is Some {
            let d = p.duration_ms->0 as int;
            match rest {
                Some(m) => Some(if m < d {
                    d
                } else {
                    m
                }),
                None => Some(d),
            }
        } else {
            rest
        }
    }
}

/// Release details kept with a ranked track.
pub struct TrackMetadata {
    pub recording_mb_id: Option<String>,
    pub release_name: Option<String>,
    pub release_mb_id: Option<String>,
}

/// A ranked artist: plays, counted listening time, catalog identifier.
pub struct ArtistPlays {
    pub name: String,
    pub plays: u64,
    pub duration_ms: i64,
    pub mb_id: Option<String>,
}

/// A ranked track with the metadata of its first play.
pub struct TrackPlays {
    pub track_name: String,
    pub artist_name: String,
    pub plays: u64,
    pub metadata: TrackMetadata,
}

/// The most played title of an artist.
pub struct ArtistTopTrack {
    pub artist_name: String,
    pub track_name: String,
    pub plays: u64,
    pub duration_ms: i32,
}

/// The first catalog identifier given to primary artist `a`, in play order.
pub open spec fn first_artist_id(plays: Seq<RowView>, a: Seq<char>) -> Option<Seq<char>>
    decreases plays.len(),
{
    if plays.len() == 0 {
        None
    } else if primary_artist(plays[0]) == Some(a) && plays[0].artists[0].1 is Some {
        plays[0].artists[0].1
    } else {
        first_artist_id(plays.subrange(1, plays.len() as int), a)
    }
}

pub open spec fn bounded_weights(w: Seq<i64>) -> bool {
    forall|i: int| 0 <= i < w.len() ==> -2147483648 <= #[trigger] w[i] <= 2147483648
}

fn counted(p: &PlayRow) -> (r: i64)
    ensures
        r == counted_ms(p@),
        -2147483648 <= r <= 2147483648,
{
    p.counted_duration_ms()
}

pub(crate) fn artist_column(plays: &Vec<PlayRow>) -> (r: (Vec<(String, String)>, Vec<i64>))
    ensures
        views(r.0@) == artist_keys(rows_view(plays@)),
        r.1@ == artist_weights(rows_view(plays@)),
        r.0@.len() == r.1@.len() <= plays@.len(),
        bounded_weights(r.1@),
{
    let mut keys: Vec<(String, String)> = Vec::new();
    let mut weights: Vec<i64> = Vec::new();
    let mut i: usize = 0;
    while i < plays.len()
        invariant
            i <= plays@.len(),
            views(keys@) == artist_keys(rows_view(plays@).take(i as int)),
            weights@ == artist_weights(rows_view(plays@).take(i as int)),
            keys@.len() == weights@.len() <= i,
            bounded_weights(weights@),
        decreases plays@.len() - i,
    {
        assert(rows_view(plays@).take(i + 1).drop_last() =~= rows_view(plays@).take(i as int));
        let p = &plays[i];
        if p.artists.len() > 0 {
            let ghost old_keys = keys@;
            keys.push((p.artists[0].name.clone(), String::new()));
            weights.push(counted(p));
            assert(views(keys@) =~= views(old_keys).push((p.artists@[0].name@, Seq::empty())));
        }
        i = i + 1;
    }
    assert(rows_view(plays@).take(i as int) =~= rows_view(plays@));
    (keys, weights)
}

pub(crate) fn track_column(plays: &Vec<PlayRow>) -> (r: (Vec<(String, String)>, Vec<i64>))
    ensures
        views(r.0@) == track_keys(rows_view(plays@)),
        r.1@ == counted_weights(rows_view(plays@)),
        r.0@.len() == r.1@.len() == plays@.len(),
        bounded_weights(r.1@),
{
    let mut keys: Vec<(String, String)> = Vec::new();
    let mut weights: Vec<i64> = Vec::new();
    let mut i: usize = 0;
    while i < plays.len()
        invariant
            i <= plays@.len(),
            views(keys@) == track_keys(rows_view(plays@)).take(i as int),
            weights@ == counted_weights(rows_view(plays@)).take(i as int),
            keys@.len() == weights@.len() == i,
            bounded_weights(weights@),
        decreases plays@.len() - i,
    {
        let p = &plays[i];
        let artist = if p.artists.len() > 0 {
            p.artists[0].name.clone()
        } else {
            String::new()
        };
        let ghost old_keys = keys@;
        keys.push((p.track_name.clone(), artist));
        weights.push(counted(p));
        i = i + 1;
        assert(views(keys@) =~= track_keys(rows_view(plays@)).take(i as int));
        assert(weights@ =~= counted_weights(rows_view(plays@)).take(i as int));
    }
    assert(track_keys(rows_view(plays@)).take(i as int) =~= track_keys(rows_view(plays@)));
    assert(counted_weights(rows_view(plays@)).take(i as int) =~= counted_weights(rows_view(plays@)));
    (keys, weights)
}

fn artist_id(plays: &Vec<PlayRow>, a: &String) -> (r: Option<String>)
    ensures
        opt_chars(r) == first_artist_id(rows_view(plays@), a@),
{
    let n = plays.len();
    let mut i: usize = 0;
    assert(rows_view(plays@).subrange(0, n as int) =~= rows_view(plays@));
    while i < n
        invariant
            n == plays@.len(),
            i <= n,
            first_artist_id(rows_view(plays@), a@) == first_artist_id(rows_view(plays@).subrange(i as int, n as int), a@),
        decreases n - i,
    {
        let ghost rest = rows_view(plays@).subrange(i as int, n as int);
        assert(rest[0] == rows_view(plays@)[i as int]);
        let p = &plays[i];
        if p.artists.len() > 0 && p.artists[0].name.eq(a) && p.artists[0].mb_id.is_some() {
            return copy_opt_string(&p.artists[0].mb_id);
        }
        assert(rest.subrange(1, rest.len() as int) =~= rows_view(plays@).subrange(i + 1, n as int));
        i = i + 1;
    }
    None
}

pub open spec fn artist_key_of(a: ArtistPlays) -> Key {
    (a.name@, Seq::empty())
}

/// The `limit` most played primary artists, with their plays, counted
/// listening time and first catalog identifier; more plays first, first
/// played first among equals.
pub fn top_artists(plays: &Vec<PlayRow>, limit: usize) -> (r: Vec<ArtistPlays>)
    requires
        plays@.len() <= MAX_PLAYS,
    ensures
        is_top(artist_keys(rows_view(plays@)), limit as int, r@.map_values(|a: ArtistPlays| artist_key_of(a))),
        forall|x: int|
            0 <= x < r@.len() ==> {
                &&& #[trigger] r@[x].plays == name_count(artist_keys(rows_view(plays@)), artist_key_of(r@[x]))
                &&& r@[x].duration_ms == name_weight(
                    artist_keys(rows_view(plays@)),
                    artist_weights(rows_view(plays@)),
                    artist_key_of(r@[x]),
                )
                &&& opt_chars(r@[x].mb_id) == first_artist_id(rows_view(plays@), r@[x].name@)
            },
{
    let (keys, weights) = artist_column(plays);
    let top = top_groups(&keys, &weights, limit);
    assert forall|y: int| 0 <= y < top@.len() implies artist_keys(rows_view(plays@)).contains(
        #[trigger] group_key(top@[y]),
    ) by {
        assert(group_names(top@)[y] == group_key(top@[y]));
    }
    let mut r: Vec<ArtistPlays> = Vec::new();
    let mut x: usize = 0;
    while x < top.len()
        invariant
            x <= top@.len(),
            r@.len() == x,
            forall|y: int|
                0 <= y < x ==> {
                    &&& #[trigger] r@[y].name@ == top@[y].name@
                    &&& top@[y].by@ == Seq::<char>::empty()
                    &&& r@[y].plays == top@[y].plays
                    &&& r@[y].duration_ms == top@[y].weight
                    &&& opt_chars(r@[y].mb_id) == first_artist_id(rows_view(plays@), r@[y].name@)
                },
            forall|y: int| 0 <= y < top@.len() ==> artist_keys(rows_view(plays@)).contains(#[trigger] group_key(top@[y])),
        decreases top@.len() - x,
    {
        let g = &top[x];
        let mb_id = artist_id(plays, &g.name);
        r.push(ArtistPlays { name: g.name.clone(), plays: g.plays, duration_ms: g.weight, mb_id });
        proof {
            lemma_artist_key_second_empty(rows_view(plays@), group_key(top@[x as int]));
        }
        x = x + 1;
    }
    proof {
        let ks = r@.map_values(|a: ArtistPlays| artist_key_of(a));
        assert(ks =~= group_names(top@)) by {
            assert forall|y: int| 0 <= y < ks.len() implies ks[y] == group_names(top@)[y] by {
                assert(r@[y].name@ == top@[y].name@);
            }
        }
        assert forall|y: int| 0 <= y < r@.len() implies artist_key_of(r@[y]) == group_key(top@[y]) by {
            assert(r@[y].name@ == top@[y].name@);
        }
    }
    r
}

proof fn lemma_artist_key_second_empty(plays: Seq<RowView>, k: Key)
    requires
        artist_keys(plays).contains(k),
    ensures
        k.1 == Seq::<char>::empty(),
    decreases plays.len(),
{
    if plays.len() > 0 {
        let rest = artist_keys(plays.drop_last());
        if rest.contains(k) {
            lemma_artist_key_second_empty(plays.drop_last(), k);
        } else {
            let i = choose|i: int| 0 <= i < artist_keys(plays).len() && artist_keys(plays)[i] == k;
            match primary_artist(plays.last()) {
                Some(a) => {
                    if i < rest.len() {
                        assert(rest[i] == k);
                    }
                },
                None => {},
            }
        }
    }
}

pub open spec fn metadata_view(m: TrackMetadata) -> (
    Option<Seq<char>>,
    Option<Seq<char>>,
    Option<Seq<char>>,
) {
    (opt_chars(m.recording_mb_id), opt_chars(m.release_name), opt_chars(m.release_mb_id))
}

pub open spec fn play_metadata(p: RowView) -> (
    Option<Seq<char>>,
    Option<Seq<char>>,
    Option<Seq<char>>,
) {
    (p.recording_mb_id, p.release_name, p.release_mb_id)
}

pub open spec fn track_key_of(t: TrackPlays) -> Key {
    (t.track_name@, t.artist_name@)
}

fn same_track_key(p: &PlayRow, k: &NameGroup) -> (r: bool)
    ensures
        r == (track_keys(seq![p@])[0] == group_key(*k)),
{
        if !p.track_name.eq(&k.name) {
        return false;
    }
    if p.artists.len() > 0 {
        p.artists[0].name.eq(&k.by)
    } else {
        let e = String::new();
        k.by.eq(&e)
    }
}

/// The `limit` most played tracks (title and primary artist), with the
/// release details of each one's first play; more plays first, first played
/// first among equals.
pub fn top_tracks(plays: &Vec<PlayRow>, limit: usize) -> (r: Vec<TrackPlays>)
    requires
        plays@.len() <= MAX_PLAYS,
    ensures
        is_top(track_keys(rows_view(plays@)), limit as int, r@.map_values(|t: TrackPlays| track_key_of(t))),
        forall|x: int|
            0 <= x < r@.len() ==> {
                &&& #[trigger] r@[x].plays == name_count(track_keys(rows_view(plays@)), track_key_of(r@[x]))
                &&& metadata_view(r@[x].metadata) == play_metadata(
                    rows_view(plays@)[first_index(track_keys(rows_view(plays@)), track_key_of(r@[x]))],
                )
            },
{
    let ghost keys_all = track_keys(rows_view(plays@));
    let (keys, weights) = track_column(plays);
    let top = top_groups(&keys, &weights, limit);
    assert forall|y: int| 0 <= y < top@.len() implies keys_all.contains(
        #[trigger] group_key(top@[y]),
    ) by {
        assert(group_names(top@)[y] == group_key(top@[y]));
    }
    let mut r: Vec<TrackPlays> = Vec::new();
    let mut x: usize = 0;
    while x < top.len()
        invariant
            keys_all == track_keys(rows_view(plays@)),
            x <= top@.len(),
            r@.len() == x,
            forall|y: int|
                0 <= y < x ==> {
                    &&& #[trigger] track_key_of(r@[y]) == group_key(top@[y])
                    &&& r@[y].plays == top@[y].plays
                    &&& metadata_view(r@[y].metadata) == play_metadata(
                        rows_view(plays@)[first_index(keys_all, group_key(top@[y]))],
                    )
                },
            forall|y: int| 0 <= y < top@.len() ==> keys_all.contains(#[trigger] group_key(top@[y])),
        decreases top@.len() - x,
    {
        let g = &top[x];
        let ghost k = group_key(top@[x as int]);
        let mut i: usize = 0;
        while i < plays.len() && !same_track_key(&plays[i], g)
            invariant
                keys_all == track_keys(rows_view(plays@)),
                i <= plays@.len(),
                k == group_key(*g),
                forall|j: int| 0 <= j < i ==> keys_all[j] != k,
            decreases plays@.len() - i,
        {
            assert(track_keys(seq![rows_view(plays@)[i as int]])[0] == keys_all[i as int]);
            i = i + 1;
        }
        assert(i < plays@.len()) by {
            if i >= plays@.len() {
                let j = choose|j: int| 0 <= j < keys_all.len() && keys_all[j] == k;
            }
        }
        assert(track_keys(seq![rows_view(plays@)[i as int]])[0] == keys_all[i as int]);
        proof {
            lemma_first_occurrence(keys_all, k, i as int);
        }
        let p = &plays[i];
        let metadata = TrackMetadata {
            recording_mb_id: copy_opt_string(&p.recording_mb_id),
            release_name: copy_opt_string(&p.release_name),
            release_mb_id: copy_opt_string(&p.release_mb_id),
        };
        r.push(TrackPlays {
            track_name: g.name.clone(),
            artist_name: g.by.clone(),
            plays: g.plays,
            metadata,
        });
        x = x + 1;
    }
    proof {
        let ks = r@.map_values(|t: TrackPlays| track_key_of(t));
        assert(ks =~= group_names(top@)) by {
            assert forall|y: int| 0 <= y < ks.len() implies ks[y] == group_names(top@)[y] by {
                assert(track_key_of(r@[y]) == group_key(top@[y]));
            }
        }
    }
    r
}

/// The most played title of primary artist `a` with its play count, or
/// `None` when no play has `a` as primary artist.
fn top_title_of(plays: &Vec<PlayRow>, a: &String) -> (r: Option<(String, u64)>)
    requires
        plays@.len() <= MAX_PLAYS,
    ensures
        match r {
            Some((t, c)) => {
                &&& is_top(titles_by(rows_view(plays@), a@), 1, seq![(t@, Seq::<char>::empty())])
                &&& c == name_count(titles_by(rows_view(plays@), a@), (t@, Seq::<char>::empty()))
            },
            None => titles_by(rows_view(plays@), a@).len() == 0,
        },
{
    let mut keys: Vec<(String, String)> = Vec::new();
    let mut zeros: Vec<i64> = Vec::new();
    let mut i: usize = 0;
    while i < plays.len()
        invariant
            i <= plays@.len() <= MAX_PLAYS,
            views(keys@) == titles_by(rows_view(plays@).take(i as int), a@),
            keys@.len() == zeros@.len() <= i,
            forall|j: int| 0 <= j < zeros@.len() ==> #[trigger] zeros@[j] == 0,
        decreases plays@.len() - i,
    {
        assert(rows_view(plays@).take(i + 1).drop_last() =~= rows_view(plays@).take(i as int));
        let p = &plays[i];
        if p.artists.len() > 0 && p.artists[0].name.eq(a) {
            let ghost old_keys = keys@;
            keys.push((p.track_name.clone(), String::new()));
            zeros.push(0);
            assert(views(keys@) =~= views(old_keys).push((p.track_name@, Seq::empty())));
        }
        i = i + 1;
    }
    assert(rows_view(plays@).take(i as int) =~= rows_view(plays@));
    let top = top_groups(&keys, &zeros, 1);
    if top.len() == 0 {
        proof {
            views(keys@).lemma_cardinality_of_empty_set_is_0();
        }
        None
    } else {
        let ghost k = group_key(top@[0]);
        assert(group_names(top@)[0] == k);
        assert(titles_by(rows_view(plays@), a@).contains(k));
        proof {
            lemma_title_key_second_empty(rows_view(plays@), a@, k);
        }
        assert(group_names(top@) =~= seq![(top@[0].name@, Seq::<char>::empty())]);
        Some((top[0].name.clone(), top[0].plays))
    }
}

proof fn lemma_title_key_second_empty(plays: Seq<RowView>, a: Seq<char>, k: Key)
    requires
        titles_by(plays, a).contains(k),
    ensures
        k.1 == Seq::<char>::empty(),
    decreases plays.len(),
{
    if plays.len() > 0 {
        let rest = titles_by(plays.drop_last(), a);
        if rest.contains(k) {
            lemma_title_key_second_empty(plays.drop_last(), a, k);
        } else {
            let i = choose|i: int| 0 <= i < titles_by(plays, a).len() && titles_by(plays, a)[i] == k;
            if primary_artist(plays.last()) == Some(a) {
                if i < rest.len() {
                    assert(rest[i] == k);
                }
            }
        }
    }
}

/// The largest known duration among the plays of title `t` by primary artist `a`.
fn longest_known_duration(plays: &Vec<PlayRow>, a: &String, t: &String) -> (r: Option<i32>)
    ensures
        match r {
            Some(d) => longest_known(rows_view(plays@), a@, t@) == Some(d as int),
            None => longest_known(rows_view(plays@), a@, t@) is None,
        },
{
    let mut best: Option<i32> = None;
    let mut i: usize = 0;
    while i < plays.len()
        invariant
            i <= plays@.len(),
            match best {
                Some(d) => longest_known(rows_view(plays@).take(i as int), a@, t@) == Some(d as int),
                None => longest_known(rows_view(plays@).take(i as int), a@, t@) is None,
            },
        decreases plays@.len() - i,
    {
        assert(rows_view(plays@).take(i + 1).drop_last() =~= rows_view(plays@).take(i as int));
        let p = &plays[i];
        if p.artists.len() > 0 && p.artists[0].name.eq(a) && p.track_name.eq(t) {
            match p.duration_ms {
                Some(d) => {
                    best = match best {
                        Some(m) => Some(if m < d {
                            d
                        } else {
                            m
                        }),
                        None => Some(d),
                    };
                },
                None => {},
            }
        }
        i = i + 1;
    }
    assert(rows_view(plays@).take(i as int) =~= rows_view(plays@));
    best
}

/// The title a primary artist was played with most, its play count, and its
/// longest known duration (the fallback duration when none is known).
pub open spec fn is_artist_top_track(plays: Seq<RowView>, t: ArtistTopTrack) -> bool {
    let key = (t.track_name@, Seq::<char>::empty());
    &&& is_top(titles_by(plays, t.artist_name@), 1, seq![key])
    &&& t.plays == name_count(titles_by(plays, t.artist_name@), key)
    &&& t.duration_ms == match longest_known(plays, t.artist_name@, t.track_name@) {
        Some(d) => d,
        None => FALLBACK_DURATION_MS as int,
    }
}

/// The most played title of each given artist, in the given order, for the
/// artists that have plays as primary artist.
pub fn top_track_per_artist(plays: &Vec<PlayRow>, artists: &Vec<ArtistPlays>) -> (r: Vec<
    ArtistTopTrack,
>)
    requires
        plays@.len() <= MAX_PLAYS,
        forall|x: int|
            0 <= x < artists@.len() ==> artist_keys(rows_view(plays@)).contains(
                #[trigger] artist_key_of(artists@[x]),
            ),
    ensures
        r@.len() == artists@.len(),
        forall|x: int|
            0 <= x < r@.len() ==> #[trigger] r@[x].artist_name@ == artists@[x].name@
                && is_artist_top_track(rows_view(plays@), r@[x]),
{
    let mut r: Vec<ArtistTopTrack> = Vec::new();
    let mut x: usize = 0;
    while x < artists.len()
        invariant
            plays@.len() <= MAX_PLAYS,
            forall|x: int|
                0 <= x < artists@.len() ==> artist_keys(rows_view(plays@)).contains(
                    #[trigger] artist_key_of(artists@[x]),
                ),
            x <= artists@.len(),
            r@.len() == x,
            forall|y: int|
                0 <= y < x ==> #[trigger] r@[y].artist_name@ == artists@[y].name@
                    && is_artist_top_track(rows_view(plays@), r@[y]),
        decreases artists@.len() - x,
    {
        let a = &artists[x];
        proof {
            assert(artist_keys(rows_view(plays@)).contains(artist_key_of(artists@[x as int])));
            lemma_artist_has_titles(rows_view(plays@), a.name@);
        }
        match top_title_of(plays, &a.name) {
            Some((t, c)) => {
                let d = match longest_known_duration(plays, &a.name, &t) {
                    Some(d) => d,
                    None => FALLBACK_DURATION_MS as i32,
                };
                r.push(ArtistTopTrack {
                    artist_name: a.name.clone(),
                    track_name: t,
                    plays: c,
                    duration_ms: d,
                });
            },
            None => {
                assert(false);
            },
        }
        x = x + 1;
    }
    r
}

proof fn lemma_artist_has_titles(plays: Seq<RowView>, a: Seq<char>)
    requires
        artist_keys(plays).contains((a, Seq::<char>::empty())),
    ensures
        titles_by(plays, a).len() > 0,
    decreases plays.len(),
{
    if plays.len() > 0 {
        let rest = artist_keys(plays.drop_last());
        if rest.contains((a, Seq::<char>::empty())) {
            lemma_artist_has_titles(plays.drop_last(), a);
        } else {
            let k = (a, Seq::<char>::empty());
            let i = choose|i: int| 0 <= i < artist_keys(plays).len() && artist_keys(plays)[i] == k;
            match primary_artist(plays.last()) {
                Some(b) => {
                    if i < rest.len() {
                        assert(rest[i] == k);
                    }
                },
                None => {
                    assert(rest[i] == k);
                },
            }
        }
    }
}

/// How many artists and tracks the rankings keep.
pub const TOP_N: usize = 10;

/// The yearly recap statistics of one user's plays.
pub struct WrappedStats {
    pub total_plays: u64,
    /// Counted listening time of all plays.
    pub total_duration_ms: i64,
    /// Counted time per play, rounded toward zero (0 without plays).
    pub avg_track_length_ms: i64,
    /// Distinct titles; the listening diversity is this over `total_plays`.
    pub unique_tracks: u64,
    pub hourly_distribution: Vec<u64>,
    pub top_hour: u8,
    pub longest_session_minutes: u64,
    pub top_artists: Vec<ArtistPlays>,
    pub top_tracks: Vec<TrackPlays>,
    /// The most played title of each top artist, in the same order.
    pub top_track_per_artist: Vec<ArtistTopTrack>,
    /// Distinct primary artists played.
    pub new_artists_count: u64,
    pub daily_plays: Vec<DayActivity>,
    pub weekday_duration_ms: i64,
    pub weekday_days: u64,
    pub weekend_duration_ms: i64,
    pub weekend_days: u64,
    pub longest_streak: u64,
    pub days_active: u64,
}

pub(crate) fn title_column(plays: &Vec<PlayRow>) -> (r: Vec<(String, String)>)
    ensures
        views(r@) == title_keys(rows_view(plays@)),
        r@.len() == plays@.len(),
{
    let mut keys: Vec<(String, String)> = Vec::new();
    let mut i: usize = 0;
    while i < plays.len()
        invariant
            i <= plays@.len(),
            views(keys@) == title_keys(rows_view(plays@)).take(i as int),
            keys@.len() == i,
        decreases plays@.len() - i,
    {
        let t = plays[i].track_name.clone();
        let e = String::new();
        assert(t@ == rows_view(plays@)[i as int].track_name);
        assert(e@ == Seq::<char>::empty());
        keys.push((t, e));
        i = i + 1;
        assert(views(keys@) =~= title_keys(rows_view(plays@)).take(i as int));
    }
    assert(title_keys(rows_view(plays@)).take(i as int) =~= title_keys(rows_view(plays@)));
    keys
}

/// `r` is the yearly recap bundle of `plays`, one user's plays of one year.
pub open spec fn is_wrapped_stats(plays: Seq<RowView>, r: WrappedStats) -> bool {
    &&& r.total_plays == plays.len()
    &&& r.total_duration_ms == total_counted(plays)
    &&& r.avg_track_length_ms == if plays.len() == 0 {
        0
    } else {
        quotient_toward_zero(total_counted(plays), plays.len() as int)
    }
    &&& r.unique_tracks == title_keys(plays).to_set().len()
    &&& r.hourly_distribution@.len() == 24
    &&& forall|h: int|
        0 <= h < 24 ==> #[trigger] r.hourly_distribution@[h] == hour_count(plays, h)
    &&& r.top_hour < 24
    &&& forall|h: int|
        0 <= h < 24 ==> #[trigger] r.hourly_distribution@[h] <= r.hourly_distribution@[r.top_hour as int]
    &&& forall|h: int|
        0 <= h < r.top_hour ==> #[trigger] r.hourly_distribution@[h]
            < r.hourly_distribution@[r.top_hour as int]
    &&& exists|s: int|
        is_longest_span(play_times(plays), SESSION_GAP_MS as int, s)
            && r.longest_session_minutes == nearest_minute(s)
    &&& is_top(artist_keys(plays), TOP_N as int, r.top_artists@.map_values(|a: ArtistPlays| artist_key_of(a)))
    &&& forall|x: int|
        0 <= x < r.top_artists@.len() ==> {
            &&& #[trigger] r.top_artists@[x].plays == name_count(
                artist_keys(plays),
                artist_key_of(r.top_artists@[x]),
            )
            &&& r.top_artists@[x].duration_ms == name_weight(
                artist_keys(plays),
                artist_weights(plays),
                artist_key_of(r.top_artists@[x]),
            )
            &&& opt_chars(r.top_artists@[x].mb_id) == first_artist_id(
                plays,
                r.top_artists@[x].name@,
            )
        }
    &&& is_top(track_keys(plays), TOP_N as int, r.top_tracks@.map_values(|t: TrackPlays| track_key_of(t)))
    &&& forall|x: int|
        0 <= x < r.top_tracks@.len() ==> {
            &&& #[trigger] r.top_tracks@[x].plays == name_count(
                track_keys(plays),
                track_key_of(r.top_tracks@[x]),
            )
            &&& metadata_view(r.top_tracks@[x].metadata) == play_metadata(
                plays[first_index(track_keys(plays), track_key_of(r.top_tracks@[x]))],
            )
        }
    &&& r.top_track_per_artist@.len() == r.top_artists@.len()
    &&& forall|x: int|
        0 <= x < r.top_track_per_artist@.len() ==> #[trigger] r.top_track_per_artist@[x].artist_name@
            == r.top_artists@[x].name@ && is_artist_top_track(plays, r.top_track_per_artist@[x])
    &&& r.new_artists_count == artist_keys(plays).to_set().len()
    &&& is_daily_activity(plays, r.daily_plays@)
    &&& total_day_plays(r.daily_plays@) == plays.len()
    &&& r.days_active == r.daily_plays.len()
    &&& r.weekday_duration_ms == part_counted(plays, false)
    &&& r.weekend_duration_ms == part_counted(plays, true)
    &&& r.weekday_days == part_days(r.daily_plays@, false)
    &&& r.weekend_days == part_days(r.daily_plays@, true)
    &&& plays.len() == 0 ==> r.longest_streak == 0
    &&& plays.len() > 0 ==> exists|s: int|
        is_longest_span(play_days(plays), 1, s) && r.longest_streak == (if s < u64::MAX {
            s + 1
        } else {
            u64::MAX as int
        })
}

/// The statistics of a list of plays (one user's plays of one year).
pub fn wrapped_stats_of(plays: &Vec<PlayRow>) -> (r: WrappedStats)
    requires
        plays@.len() <= MAX_PLAYS,
    ensures
        is_wrapped_stats(rows_view(plays@), r),
{
    let total_plays = plays.len() as u64;
    let (total, weekday_ms, weekend_ms) = counted_totals(plays);
    let avg = if total_plays > 0 {
        average_toward_zero(total, total_plays)
    } else {
        0
    };
    let titles = title_column(plays);
    let unique_tracks = distinct_count(&titles) as u64;
    let dist = hourly_distribution(plays);
    let hour = top_hour(&dist);
    let session = round_to_minutes(longest_session_ms(plays));
    let artists = top_artists(plays, TOP_N);
    let tracks = top_tracks(plays, TOP_N);
    assert forall|x: int| 0 <= x < artists@.len() implies artist_keys(rows_view(plays@)).contains(
        #[trigger] artist_key_of(artists@[x]),
    ) by {
        let ks = artists@.map_values(|a: ArtistPlays| artist_key_of(a));
        assert(ks[x] == artist_key_of(artists@[x]));
    }
    let per_artist = top_track_per_artist(plays, &artists);
    let (artist_keys_col, _) = artist_column(plays);
    let new_artists = distinct_count(&artist_keys_col) as u64;
    let daily = daily_activity(plays);
    let (weekday_days, weekend_days) = day_kinds(&daily);
    let days = days_of_plays(plays);
    let streak = calculate_longest_streak(&days);
    let days_active = daily.len() as u64;
    WrappedStats {
        total_plays,
        total_duration_ms: total,
        avg_track_length_ms: avg,
        unique_tracks,
        hourly_distribution: dist,
        top_hour: hour,
        longest_session_minutes: session,
        top_artists: artists,
        top_tracks: tracks,
        top_track_per_artist: per_artist,
        new_artists_count: new_artists,
        daily_plays: daily,
        weekday_duration_ms: weekday_ms,
        weekday_days,
        weekend_duration_ms: weekend_ms,
        weekend_days,
        longest_streak: streak,
        days_active,
    }
}

} // verus!
