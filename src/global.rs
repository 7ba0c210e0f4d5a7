//! Platform-wide statistics for one year: totals, rankings, per-user
//! percentile tables and the percentile rank of one user.

use vstd::prelude::*;
use crate::group::{
    first_index, group_by_name, group_key, group_names, is_top, lemma_grouping_facts, name_count,
    name_weight, top_groups, views, Key,
};
use crate::percentile::{
    count_below, is_percentile_table, percentile_rank, percentile_table, whole_percentile_table,
};
use crate::play::{counted_ms, copy_opt_string, opt_chars, primary_artist, rows_view, PlayRow, RowView};
use crate::similar::{distinct_keys, user_keys};
use crate::stats::{counted_totals, total_counted, MAX_PLAYS};
use crate::wrapped::{
    artist_key_of, artist_keys, artist_weights, counted_weights, first_artist_id, metadata_view, play_metadata,
    title_column, title_keys, top_artists, top_tracks, track_key_of, track_keys, ArtistPlays, TrackPlays,
};

verus! {

/// Every artist credited on the plays of user `u`, keyed by name.
pub open spec fn credits_of(plays: Seq<RowView>, u: Seq<char>) -> Seq<Key>
    decreases plays.len(),
{
    if plays.len() == 0 {
        Seq::empty()
    } else {
        let rest = credits_of(plays.drop_last(), u);
        let p = plays.last();
        if p.user_did == u {
            rest + p.artists.map_values(|a: (Seq<char>, Option<Seq<char>>)| (a.0, Seq::<char>::empty()))
        } else {
            rest
        }
    }
}

pub fn credit_column(plays: &Vec<PlayRow>, u: &String) -> (r: Vec<(String, String)>)
    ensures
        views(r@) == credits_of(rows_view(plays@), u@),
{
    let ghost pv = rows_view(plays@);
    let mut r: Vec<(String, String)> = Vec::new();
    let mut i: usize = 0;
    while i < plays.len()
        invariant
            pv == rows_view(plays@),
            i <= plays@.len(),
            views(r@) == credits_of(pv.take(i as int), u@),
        decreases plays@.len() - i,
    {
        assert(pv.take(i + 1).drop_last() =~= pv.take(i as int));
        let p = &plays[i];
        if p.user_did.eq(u) {
            let ghost base = views(r@);
            let ghost credits = p@.artists.map_values(
                |a: (Seq<char>, Option<Seq<char>>)| (a.0, Seq::<char>::empty()),
            );
            let mut j: usize = 0;
            while j < p.artists.len()
                invariant
                    j <= p.artists@.len(),
                    credits.len() == p.artists@.len(),
                    credits == p@.artists.map_values(
                        |a: (Seq<char>, Option<Seq<char>>)| (a.0, Seq::<char>::empty()),
                    ),
                    views(r@) == base + credits.take(j as int),
                decreases p.artists@.len() - j,
            {
                let n = p.artists[j].name.clone();
                let e = String::new();
                let ghost before = views(r@);
                r.push((n, e));
                j = j + 1;
                assert(views(r@) =~= before.push(credits[j - 1]));
                assert(base + credits.take(j as int) =~= (base + credits.take(j - 1)).push(
                    credits[j - 1],
                ));
            }
            assert(credits.take(j as int) =~= credits);
        }
        i = i + 1;
    }
    assert(pv.take(i as int) =~= pv);
    r
}

/// The titles played by user `u`, in play order.
pub open spec fn user_titles(plays: Seq<RowView>, u: Seq<char>) -> Seq<Key>
    decreases plays.len(),
{
    if plays.len() == 0 {
        Seq::empty()
    } else {
        let rest = user_titles(plays.drop_last(), u);
        if plays.last().user_did == u {
            rest.push((plays.last().track_name, Seq::<char>::empty()))
        } else {
            rest
        }
    }
}

/// The users of the plays whose primary artist is `a`.
pub open spec fn artist_listeners(plays: Seq<RowView>, a: Seq<char>) -> Seq<Key>
    decreases plays.len(),
{
    if plays.len() == 0 {
        Seq::empty()
    } else {
        let rest = artist_listeners(plays.drop_last(), a);
        if primary_artist(plays.last()) == Some(a) {
            rest.push((plays.last().user_did, Seq::<char>::empty()))
        } else {
            rest
        }
    }
}

/// The users of the plays of track `k` (title and primary artist).
pub open spec fn track_listeners(plays: Seq<RowView>, k: Key) -> Seq<Key>
    decreases plays.len(),
{
    if plays.len() == 0 {
        Seq::empty()
    } else {
        let rest = track_listeners(plays.drop_last(), k);
        if track_keys(seq![plays.last()])[0] == k {
            rest.push((plays.last().user_did, Seq::<char>::empty()))
        } else {
            rest
        }
    }
}

/// Every artist credit of every play, keyed by name.
pub open spec fn all_credits(plays: Seq<RowView>) -> Seq<Key>
    decreases plays.len(),
{
    if plays.len() == 0 {
        Seq::empty()
    } else {
        all_credits(plays.drop_last()) + plays.last().artists.map_values(
            |a: (Seq<char>, Option<Seq<char>>)| (a.0, Seq::<char>::empty()),
        )
    }
}

/// The counted duration of the plays that carry a recording identifier.
pub open spec fn verified_counted(plays: Seq<RowView>) -> int
    decreases plays.len(),
{
    if plays.len() == 0 {
        0
    } else {
        verified_counted(plays.drop_last()) + if plays.last().recording_mb_id is Some {
            counted_ms(plays.last())
        } else {
            0
        }
    }
}

fn count_distinct(col: &Vec<(String, String)>) -> (r: u64)
    ensures
        r == views(col@).to_set().len(),
{
    let d = distinct_keys(col);
    proof {
        views(d@).unique_seq_to_set();
    }
    d.len() as u64
}

fn user_title_column(plays: &Vec<PlayRow>, u: &String) -> (r: Vec<(String, String)>)
    ensures
        views(r@) == user_titles(rows_view(plays@), u@),
{
    let ghost pv = rows_view(plays@);
    let mut r: Vec<(String, String)> = Vec::new();
    let mut i: usize = 0;
    while i < plays.len()
        invariant
            pv == rows_view(plays@),
            i <= plays@.len(),
            views(r@) == user_titles(pv.take(i as int), u@),
        decreases plays@.len() - i,
    {
        assert(pv.take(i + 1).drop_last() =~= pv.take(i as int));
        let p = &plays[i];
        if p.user_did.eq(u) {
            let ghost before = views(r@);
            r.push((p.track_name.clone(), String::new()));
            assert(views(r@) =~= before.push((p.track_name@, Seq::<char>::empty())));
        }
        i = i + 1;
    }
    assert(pv.take(i as int) =~= pv);
    r
}

fn artist_listener_column(plays: &Vec<PlayRow>, a: &String) -> (r: Vec<(String, String)>)
    ensures
        views(r@) == artist_listeners(rows_view(plays@), a@),
{
    let ghost pv = rows_view(plays@);
    let mut r: Vec<(String, String)> = Vec::new();
    let mut i: usize = 0;
    while i < plays.len()
        invariant
            pv == rows_view(plays@),
            i <= plays@.len(),
            views(r@) == artist_listeners(pv.take(i as int), a@),
        decreases plays@.len() - i,
    {
        assert(pv.take(i + 1).drop_last() =~= pv.take(i as int));
        let p = &plays[i];
        if p.artists.len() > 0 && p.artists[0].name.eq(a) {
            let ghost before = views(r@);
            r.push((p.user_did.clone(), String::new()));
            assert(views(r@) =~= before.push((p.user_did@, Seq::<char>::empty())));
        }
        i = i + 1;
    }
    assert(pv.take(i as int) =~= pv);
    r
}

fn track_listener_column(plays: &Vec<PlayRow>, title: &String, artist: &String) -> (r: Vec<
    (String, String),
>)
    ensures
        views(r@) == track_listeners(rows_view(plays@), (title@, artist@)),
{
    let ghost pv = rows_view(plays@);
    let ghost k = (title@, artist@);
    let empty = String::new();
    let mut r: Vec<(String, String)> = Vec::new();
    let mut i: usize = 0;
    while i < plays.len()
        invariant
            pv == rows_view(plays@),
            k == (title@, artist@),
            empty@ == Seq::<char>::empty(),
            i <= plays@.len(),
            views(r@) == track_listeners(pv.take(i as int), k),
        decreases plays@.len() - i,
    {
        assert(pv.take(i + 1).drop_last() =~= pv.take(i as int));
        let p = &plays[i];
        let same_artist = if p.artists.len() > 0 {
            p.artists[0].name.eq(artist)
        } else {
            empty.eq(artist)
        };
        if p.track_name.eq(title) && same_artist {
            let ghost before = views(r@);
            r.push((p.user_did.clone(), String::new()));
            assert(views(r@) =~= before.push((p.user_did@, Seq::<char>::empty())));
        }
        i = i + 1;
    }
    assert(pv.take(i as int) =~= pv);
    r
}

fn all_credit_column(plays: &Vec<PlayRow>) -> (r: Vec<(String, String)>)
    ensures
        views(r@) == all_credits(rows_view(plays@)),
{
    let ghost pv = rows_view(plays@);
    let mut r: Vec<(String, String)> = Vec::new();
    let mut i: usize = 0;
    while i < plays.len()
        invariant
            pv == rows_view(plays@),
            i <= plays@.len(),
            views(r@) == all_credits(pv.take(i as int)),
        decreases plays@.len() - i,
    {
        assert(pv.take(i + 1).drop_last() =~= pv.take(i as int));
        let p = &plays[i];
        let ghost base = views(r@);
        let ghost credits = p@.artists.map_values(
            |a: (Seq<char>, Option<Seq<char>>)| (a.0, Seq::<char>::empty()),
        );
        let mut j: usize = 0;
        while j < p.artists.len()
            invariant
                j <= p.artists@.len(),
                credits.len() == p.artists@.len(),
                credits == p@.artists.map_values(
                    |a: (Seq<char>, Option<Seq<char>>)| (a.0, Seq::<char>::empty()),
                ),
                views(r@) == base + credits.take(j as int),
            decreases p.artists@.len() - j,
        {
            let ghost before = views(r@);
            r.push((p.artists[j].name.clone(), String::new()));
            j = j + 1;
            assert(views(r@) =~= before.push(credits[j - 1]));
            assert(base + credits.take(j as int) =~= (base + credits.take(j - 1)).push(
                credits[j - 1],
            ));
        }
        assert(credits.take(j as int) =~= credits);
        i = i + 1;
    }
    assert(pv.take(i as int) =~= pv);
    r
}

fn verified_duration(plays: &Vec<PlayRow>) -> (r: i64)
    requires
        plays@.len() <= MAX_PLAYS,
    ensures
        r == verified_counted(rows_view(plays@)),
{
    let ghost pv = rows_view(plays@);
    let mut total: i64 = 0;
    let mut i: usize = 0;
    while i < plays.len()
        invariant
            pv == rows_view(plays@),
            i <= plays@.len() <= MAX_PLAYS,
            total == verified_counted(pv.take(i as int)),
            -(i as int) * 2147483648 <= total <= (i as int) * 2147483648,
        decreases plays@.len() - i,
    {
        assert(pv.take(i + 1).drop_last() =~= pv.take(i as int));
        if plays[i].recording_mb_id.is_some() {
            total = total + plays[i].counted_duration_ms();
        }
        i = i + 1;
    }
    assert(pv.take(i as int) =~= pv);
    total
}

/// One user's totals for the year.
pub struct UserTotals {
    pub user_did: String,
    pub plays: u64,
    pub duration_ms: i64,
    pub unique_artists: u64,
    pub unique_tracks: u64,
}

pub open spec fn user_key(t: UserTotals) -> Key {
    (t.user_did@, Seq::<char>::empty())
}

/// One entry per user, in order of first play, with plays, counted
/// listening time, distinct artists credited and distinct titles.
pub open spec fn is_user_totals(plays: Seq<RowView>, t: Seq<UserTotals>) -> bool {
    &&& forall|i: int|
        0 <= i < t.len() ==> {
            &&& #[trigger] t[i].plays == name_count(user_keys(plays), user_key(t[i]))
            &&& t[i].duration_ms == name_weight(user_keys(plays), counted_weights(plays), user_key(t[i]))
            &&& t[i].unique_artists == credits_of(plays, t[i].user_did@).to_set().len()
            &&& t[i].unique_tracks == user_titles(plays, t[i].user_did@).to_set().len()
            &&& t[i].plays > 0
        }
    &&& forall|i: int, j: int|
        0 <= i < j < t.len() ==> first_index(user_keys(plays), user_key(t[i])) < first_index(
            user_keys(plays),
            user_key(t[j]),
        )
    &&& forall|k: Key| user_keys(plays).contains(k) ==> t.map_values(|u: UserTotals| user_key(u)).contains(k)
    &&& t.len() == user_keys(plays).to_set().len()
}

pub(crate) fn user_column(plays: &Vec<PlayRow>) -> (r: (Vec<(String, String)>, Vec<i64>))
    ensures
        views(r.0@) == user_keys(rows_view(plays@)),
        r.1@ == counted_weights(rows_view(plays@)),
        r.0@.len() == r.1@.len() == plays@.len(),
        forall|i: int| 0 <= i < r.1@.len() ==> -2147483648 <= #[trigger] r.1@[i] <= 2147483648,
{
    let ghost pv = rows_view(plays@);
    let mut keys: Vec<(String, String)> = Vec::new();
    let mut weights: Vec<i64> = Vec::new();
    let mut i: usize = 0;
    while i < plays.len()
        invariant
            pv == rows_view(plays@),
            i <= plays@.len(),
            views(keys@) == user_keys(pv).take(i as int),
            weights@ == counted_weights(pv).take(i as int),
            keys@.len() == weights@.len() == i,
            forall|j: int| 0 <= j < weights@.len() ==> -2147483648 <= #[trigger] weights@[j] <= 2147483648,
        decreases plays@.len() - i,
    {
        keys.push((plays[i].user_did.clone(), String::new()));
        weights.push(plays[i].counted_duration_ms());
        i = i + 1;
        assert(views(keys@) =~= user_keys(pv).take(i as int));
        assert(weights@ =~= counted_weights(pv).take(i as int));
    }
    assert(user_keys(pv).take(i as int) =~= user_keys(pv));
    assert(counted_weights(pv).take(i as int) =~= counted_weights(pv));
    (keys, weights)
}

/// The totals of every user, in order of first play.
pub fn user_totals(plays: &Vec<PlayRow>) -> (r: Vec<UserTotals>)
    requires
        plays@.len() <= MAX_PLAYS,
    ensures
        is_user_totals(rows_view(plays@), r@),
{
    let ghost pv = rows_view(plays@);
    let (keys, weights) = user_column(plays);
    let g = group_by_name(&keys, &weights);
    proof {
        lemma_grouping_facts(user_keys(pv), weights@, g@);
    }
    assert forall|j: int| 0 <= j < g@.len() implies (#[trigger] g@[j]).by@ == Seq::<char>::empty() by {
        assert(user_keys(pv).contains(group_key(g@[j])));
        let m = choose|m: int| 0 <= m < user_keys(pv).len() && user_keys(pv)[m] == group_key(g@[j]);
    }
    let mut r: Vec<UserTotals> = Vec::new();
    let mut j: usize = 0;
    while j < g.len()
        invariant
            pv == rows_view(plays@),
            weights@ == counted_weights(pv),
            j <= g@.len(),
            r@.len() == j,
            forall|x: int| 0 <= x < g@.len() ==> (#[trigger] g@[x]).by@ == Seq::<char>::empty(),
            forall|x: int|
                0 <= x < j ==> {
                    &&& #[trigger] user_key(r@[x]) == group_key(g@[x])
                    &&& r@[x].plays == g@[x].plays
                    &&& r@[x].duration_ms == g@[x].weight
                    &&& r@[x].unique_artists == credits_of(pv, r@[x].user_did@).to_set().len()
                    &&& r@[x].unique_tracks == user_titles(pv, r@[x].user_did@).to_set().len()
                },
        decreases g@.len() - j,
    {
        let u = &g[j].name;
        let artists = count_distinct(&credit_column(plays, u));
        let tracks = count_distinct(&user_title_column(plays, u));
        r.push(UserTotals {
            user_did: u.clone(),
            plays: g[j].plays,
            duration_ms: g[j].weight,
            unique_artists: artists,
            unique_tracks: tracks,
        });
        assert(user_key(r@[j as int]) == group_key(g@[j as int]));
        j = j + 1;
    }
    proof {
        let uk = user_keys(pv);
        assert(r@.map_values(|u: UserTotals| user_key(u)) =~= group_names(g@));
        assert forall|i: int| 0 <= i < r@.len() implies {
            &&& #[trigger] r@[i].plays == name_count(uk, user_key(r@[i]))
            &&& r@[i].duration_ms == name_weight(uk, counted_weights(pv), user_key(r@[i]))
            &&& r@[i].plays > 0
        } by {
            assert(user_key(r@[i]) == group_key(g@[i]));
            assert(g@[i].plays > 0);
        }
        assert forall|a: int, b: int| 0 <= a < b < r@.len() implies first_index(uk, user_key(r@[a]))
            < first_index(uk, user_key(r@[b])) by {
            assert(user_key(r@[a]) == group_key(g@[a]));
            assert(user_key(r@[b]) == group_key(g@[b]));
        }
    }
    r
}

/// How many entries the platform-wide rankings keep.
pub const GLOBAL_TOP_N: usize = 100;

/// A primary artist ranked across all users.
pub struct GlobalArtist {
    pub name: String,
    pub play_count: u64,
    /// How many distinct users played the artist.
    pub user_count: u64,
    pub mb_id: Option<String>,
}

/// A track (title and primary artist) ranked across all users.
pub struct GlobalTrack {
    pub track_name: String,
    pub artist_name: String,
    pub play_count: u64,
    pub user_count: u64,
    pub recording_mb_id: Option<String>,
}

/// A user ranked by plays.
pub struct TopUser {
    pub user_did: String,
    pub play_count: u64,
    pub duration_ms: i64,
}

/// Platform-wide statistics of one year.
pub struct GlobalStats {
    pub year: i32,
    pub total_plays: u64,
    pub total_duration_ms: i64,
    pub unique_users: u64,
    /// Distinct primary artists.
    pub unique_artists: u64,
    /// Distinct titles.
    pub unique_tracks: u64,
    pub top_artists: Vec<GlobalArtist>,
    pub top_tracks: Vec<GlobalTrack>,
    pub top_users: Vec<TopUser>,
}

pub open spec fn global_artist_key(a: GlobalArtist) -> Key {
    (a.name@, Seq::<char>::empty())
}

pub open spec fn global_track_key(t: GlobalTrack) -> Key {
    (t.track_name@, t.artist_name@)
}

pub open spec fn top_user_key(u: TopUser) -> Key {
    (u.user_did@, Seq::<char>::empty())
}

/// The `limit` users with the most plays, with their plays and counted
/// listening time; first played first among equals.
pub open spec fn is_top_users(plays: Seq<RowView>, limit: int, t: Seq<TopUser>) -> bool {
    &&& is_top(user_keys(plays), limit, t.map_values(|u: TopUser| top_user_key(u)))
    &&& forall|x: int|
        0 <= x < t.len() ==> {
            &&& #[trigger] t[x].play_count == name_count(user_keys(plays), top_user_key(t[x]))
            &&& t[x].duration_ms == name_weight(user_keys(plays), counted_weights(plays), top_user_key(t[x]))
        }
}

fn top_users(plays: &Vec<PlayRow>, limit: usize) -> (r: Vec<TopUser>)
    requires
        plays@.len() <= MAX_PLAYS,
    ensures
        is_top_users(rows_view(plays@), limit as int, r@),
{
    let ghost pv = rows_view(plays@);
    let (keys, weights) = user_column(plays);
    let top = top_groups(&keys, &weights, limit);
    assert forall|j: int| 0 <= j < top@.len() implies (#[trigger] top@[j]).by@ == Seq::<char>::empty() by {
        assert(group_names(top@)[j] == group_key(top@[j]));
        assert(user_keys(pv).contains(group_key(top@[j])));
        let m = choose|m: int| 0 <= m < user_keys(pv).len() && user_keys(pv)[m] == group_key(top@[j]);
    }
    let mut r: Vec<TopUser> = Vec::new();
    let mut x: usize = 0;
    while x < top.len()
        invariant
            x <= top@.len(),
            r@.len() == x,
            forall|j: int| 0 <= j < top@.len() ==> (#[trigger] top@[j]).by@ == Seq::<char>::empty(),
            forall|y: int|
                0 <= y < x ==> {
                    &&& #[trigger] top_user_key(r@[y]) == group_key(top@[y])
                    &&& r@[y].play_count == top@[y].plays
                    &&& r@[y].duration_ms == top@[y].weight
                },
        decreases top@.len() - x,
    {
        r.push(TopUser { user_did: top[x].name.clone(), play_count: top[x].plays, duration_ms: top[x].weight });
        assert(top_user_key(r@[x as int]) == group_key(top@[x as int]));
        x = x + 1;
    }
    assert(r@.map_values(|u: TopUser| top_user_key(u)) =~= group_names(top@));
    r
}

/// The platform-wide statistics of `plays`, all users' plays of `year`.
pub fn calculate_global_stats(plays: &Vec<PlayRow>, year: i32) -> (r: GlobalStats)
    requires
        plays@.len() <= MAX_PLAYS,
    ensures
        r.year == year,
        r.total_plays == plays@.len(),
        r.total_duration_ms == total_counted(rows_view(plays@)),
        r.unique_users == user_keys(rows_view(plays@)).to_set().len(),
        r.unique_artists == artist_keys(rows_view(plays@)).to_set().len(),
        r.unique_tracks == title_keys(rows_view(plays@)).to_set().len(),
        is_top(
            artist_keys(rows_view(plays@)),
            GLOBAL_TOP_N as int,
            r.top_artists@.map_values(|a: GlobalArtist| global_artist_key(a)),
        ),
        forall|x: int|
            0 <= x < r.top_artists@.len() ==> {
                &&& #[trigger] r.top_artists@[x].play_count == name_count(
                    artist_keys(rows_view(plays@)),
                    global_artist_key(r.top_artists@[x]),
                )
                &&& r.top_artists@[x].user_count == artist_listeners(
                    rows_view(plays@),
                    r.top_artists@[x].name@,
                ).to_set().len()
                &&& opt_chars(r.top_artists@[x].mb_id) == first_artist_id(
                    rows_view(plays@),
                    r.top_artists@[x].name@,
                )
            },
        is_top(
            track_keys(rows_view(plays@)),
            GLOBAL_TOP_N as int,
            r.top_tracks@.map_values(|t: GlobalTrack| global_track_key(t)),
        ),
        forall|x: int|
            0 <= x < r.top_tracks@.len() ==> {
                &&& #[trigger] r.top_tracks@[x].play_count == name_count(
                    track_keys(rows_view(plays@)),
                    global_track_key(r.top_tracks@[x]),
                )
                &&& r.top_tracks@[x].user_count == track_listeners(
                    rows_view(plays@),
                    global_track_key(r.top_tracks@[x]),
                ).to_set().len()
                &&& opt_chars(r.top_tracks@[x].recording_mb_id) == play_metadata(
                    rows_view(plays@)[first_index(
                        track_keys(rows_view(plays@)),
                        global_track_key(r.top_tracks@[x]),
                    )],
                ).0
            },
        is_top_users(rows_view(plays@), GLOBAL_TOP_N as int, r.top_users@),
{
    let ghost pv = rows_view(plays@);
    let (total, _, _) = counted_totals(plays);
    let (ukeys, _) = user_column(plays);
    let unique_users = count_distinct(&ukeys);
    let (akeys, _) = crate::wrapped::artist_column(plays);
    let unique_artists = count_distinct(&akeys);
    let unique_tracks = count_distinct(&title_column(plays));
    let artists = top_artists(plays, GLOBAL_TOP_N);
    let mut top_a: Vec<GlobalArtist> = Vec::new();
    let mut x: usize = 0;
    while x < artists.len()
        invariant
            pv == rows_view(plays@),
            x <= artists@.len(),
            top_a@.len() == x,
            forall|y: int|
                0 <= y < x ==> {
                    &&& #[trigger] top_a@[y].name@ == artists@[y].name@
                    &&& top_a@[y].play_count == artists@[y].plays
                    &&& top_a@[y].user_count == artist_listeners(pv, artists@[y].name@).to_set().len()
                    &&& opt_chars(top_a@[y].mb_id) == opt_chars(artists@[y].mb_id)
                },
        decreases artists@.len() - x,
    {
        let a = &artists[x];
        let users = count_distinct(&artist_listener_column(plays, &a.name));
        top_a.push(GlobalArtist {
            name: a.name.clone(),
            play_count: a.plays,
            user_count: users,
            mb_id: copy_opt_string(&a.mb_id),
        });
        x = x + 1;
    }
    assert(top_a@.map_values(|a: GlobalArtist| global_artist_key(a)) =~= artists@.map_values(
        |a: ArtistPlays| artist_key_of(a),
    ));
    let tracks = top_tracks(plays, GLOBAL_TOP_N);
    let mut top_t: Vec<GlobalTrack> = Vec::new();
    let mut x: usize = 0;
    while x < tracks.len()
        invariant
            pv == rows_view(plays@),
            x <= tracks@.len(),
            top_t@.len() == x,
            forall|y: int|
                0 <= y < x ==> {
                    &&& #[trigger] global_track_key(top_t@[y]) == track_key_of(tracks@[y])
                    &&& top_t@[y].play_count == tracks@[y].plays
                    &&& top_t@[y].user_count == track_listeners(pv, track_key_of(tracks@[y])).to_set().len()
                    &&& opt_chars(top_t@[y].recording_mb_id) == metadata_view(tracks@[y].metadata).0
                },
        decreases tracks@.len() - x,
    {
        let t = &tracks[x];
        let users = count_distinct(&track_listener_column(plays, &t.track_name, &t.artist_name));
        top_t.push(GlobalTrack {
            track_name: t.track_name.clone(),
            artist_name: t.artist_name.clone(),
            play_count: t.plays,
            user_count: users,
            recording_mb_id: copy_opt_string(&t.metadata.recording_mb_id),
        });
        assert(global_track_key(top_t@[x as int]) == track_key_of(tracks@[x as int]));
        x = x + 1;
    }
    assert(top_t@.map_values(|t: GlobalTrack| global_track_key(t)) =~= tracks@.map_values(
        |t: TrackPlays| track_key_of(t),
    ));
    let users = top_users(plays, GLOBAL_TOP_N);
    GlobalStats {
        year,
        total_plays: plays.len() as u64,
        total_duration_ms: total,
        unique_users,
        unique_artists,
        unique_tracks,
        top_artists: top_a,
        top_tracks: top_t,
        top_users: users,
    }
}

/// How many users, artists and tracks the yearly recap rankings keep.
pub const WRAPPED_TOP_USERS: usize = 5;

pub const WRAPPED_TOP_N: usize = 10;

pub open spec fn duration_col(t: Seq<UserTotals>) -> Seq<i64> {
    t.map_values(|u: UserTotals| u.duration_ms)
}

pub open spec fn plays_col(t: Seq<UserTotals>) -> Seq<i64> {
    t.map_values(|u: UserTotals| u.plays as i64)
}

pub open spec fn artists_col(t: Seq<UserTotals>) -> Seq<i64> {
    t.map_values(|u: UserTotals| u.unique_artists as i64)
}

pub open spec fn tracks_col(t: Seq<UserTotals>) -> Seq<i64> {
    t.map_values(|u: UserTotals| u.unique_tracks as i64)
}

/// The totals of user `u`, when it has any.
pub open spec fn totals_of(t: Seq<UserTotals>, u: Seq<char>) -> Option<UserTotals>
    decreases t.len(),
{
    if t.len() == 0 {
        None
    } else if t.last().user_did@ == u {
        Some(t.last())
    } else {
        totals_of(t.drop_last(), u)
    }
}

/// Where one user stands among all: for each measure, the share in whole
/// percent of users strictly below.
pub struct UserPercentile {
    pub total_minutes: u64,
    pub total_plays: u64,
    pub unique_artists: u64,
    pub unique_tracks: u64,
}

/// Percentile tables, 0 to 100 in steps of 5, of the per-user measures:
/// each entry a hundred times the value for listening time, and a whole
/// value for the counts.
pub struct Distribution {
    pub duration_percentiles: Vec<(u64, i128)>,
    pub plays_percentiles: Vec<(u64, i128)>,
    pub artists_percentiles: Vec<(u64, i128)>,
    pub tracks_percentiles: Vec<(u64, i128)>,
}

/// Yearly recap statistics of the whole platform.
pub struct GlobalWrappedStats {
    /// Counted listening time of the plays with a recording identifier.
    pub verified_duration_ms: i64,
    pub total_users: u64,
    /// Distinct artists over all credits.
    pub unique_artists: u64,
    pub unique_tracks: u64,
    pub top_users: Vec<TopUser>,
    pub top_artists: Vec<ArtistPlays>,
    pub top_tracks: Vec<TrackPlays>,
    pub user_percentile: Option<UserPercentile>,
    pub distribution: Distribution,
}

/// The rank of user `u` among the users' totals `t`.
pub open spec fn is_user_percentile(t: Seq<UserTotals>, u: Seq<char>, p: UserPercentile) -> bool {
    let (d, n, a, k) = match totals_of(t, u) {
        Some(e) => (e.duration_ms as int, e.plays as i64 as int, e.unique_artists as i64 as int, e.unique_tracks as i64 as int),
        None => (0, 0, 0, 0),
    };
    &&& p.total_minutes == (100 * count_below(duration_col(t), d) as int) / (t.len() as int)
    &&& p.total_plays == (100 * count_below(plays_col(t), n) as int) / (t.len() as int)
    &&& p.unique_artists == (100 * count_below(artists_col(t), a) as int) / (t.len() as int)
    &&& p.unique_tracks == (100 * count_below(tracks_col(t), k) as int) / (t.len() as int)
}

fn find_totals(t: &Vec<UserTotals>, u: &String) -> (r: Option<usize>)
    ensures
        match r {
            Some(i) => i < t@.len() && totals_of(t@, u@) == Some(t@[i as int]),
            None => totals_of(t@, u@) is None,
        },
{
    let mut i: usize = t.len();
    assert(t@.take(i as int) =~= t@);
    while i > 0
        invariant
            i <= t@.len(),
            totals_of(t@, u@) == totals_of(t@.take(i as int), u@),
        decreases i,
    {
        assert(t@.take(i as int).drop_last() =~= t@.take(i - 1));
        if t[i - 1].user_did.eq(u) {
            return Some(i - 1);
        }
        i = i - 1;
    }
    None
}

fn column_of(t: &Vec<UserTotals>, which: u8) -> (r: Vec<i64>)
    ensures
        which == 0 ==> r@ == duration_col(t@),
        which == 1 ==> r@ == plays_col(t@),
        which == 2 ==> r@ == artists_col(t@),
        which == 3 ==> r@ == tracks_col(t@),
        r@.len() == t@.len(),
{
    let mut r: Vec<i64> = Vec::new();
    let mut i: usize = 0;
    while i < t.len()
        invariant
            i <= t@.len(),
            r@.len() == i,
            which == 0 ==> r@ == duration_col(t@).take(i as int),
            which == 1 ==> r@ == plays_col(t@).take(i as int),
            which == 2 ==> r@ == artists_col(t@).take(i as int),
            which == 3 ==> r@ == tracks_col(t@).take(i as int),
        decreases t@.len() - i,
    {
        let e = &t[i];
        let v: i64 = if which == 0 {
            e.duration_ms
        } else if which == 1 {
            e.plays as i64
        } else if which == 2 {
            e.unique_artists as i64
        } else {
            e.unique_tracks as i64
        };
        r.push(v);
        i = i + 1;
        assert(which == 0 ==> r@ =~= duration_col(t@).take(i as int));
        assert(which == 1 ==> r@ =~= plays_col(t@).take(i as int));
        assert(which == 2 ==> r@ =~= artists_col(t@).take(i as int));
        assert(which == 3 ==> r@ =~= tracks_col(t@).take(i as int));
    }
    assert(duration_col(t@).take(i as int) =~= duration_col(t@));
    assert(plays_col(t@).take(i as int) =~= plays_col(t@));
    assert(artists_col(t@).take(i as int) =~= artists_col(t@));
    assert(tracks_col(t@).take(i as int) =~= tracks_col(t@));
    r
}

/// The platform-wide yearly recap statistics of `plays` (all users' plays
/// of one year), with the percentile rank of `user_did` when one is given
/// and there are users.
pub fn calculate_global_wrapped_stats(plays: &Vec<PlayRow>, user_did: Option<&String>) -> (r:
    GlobalWrappedStats)
    requires
        plays@.len() <= MAX_PLAYS,
    ensures
        r.verified_duration_ms == verified_counted(rows_view(plays@)),
        r.total_users == user_keys(rows_view(plays@)).to_set().len(),
        r.unique_artists == all_credits(rows_view(plays@)).to_set().len(),
        r.unique_tracks == title_keys(rows_view(plays@)).to_set().len(),
        is_top_users(rows_view(plays@), WRAPPED_TOP_USERS as int, r.top_users@),
        is_top(
            artist_keys(rows_view(plays@)),
            WRAPPED_TOP_N as int,
            r.top_artists@.map_values(|a: ArtistPlays| artist_key_of(a)),
        ),
        forall|x: int|
            0 <= x < r.top_artists@.len() ==> {
                &&& #[trigger] r.top_artists@[x].plays == name_count(
                    artist_keys(rows_view(plays@)),
                    artist_key_of(r.top_artists@[x]),
                )
                &&& r.top_artists@[x].duration_ms == name_weight(
                    artist_keys(rows_view(plays@)),
                    artist_weights(rows_view(plays@)),
                    artist_key_of(r.top_artists@[x]),
                )
                &&& opt_chars(r.top_artists@[x].mb_id) == first_artist_id(
                    rows_view(plays@),
                    r.top_artists@[x].name@,
                )
            },
        is_top(
            track_keys(rows_view(plays@)),
            WRAPPED_TOP_N as int,
            r.top_tracks@.map_values(|t: TrackPlays| track_key_of(t)),
        ),
        forall|x: int|
            0 <= x < r.top_tracks@.len() ==> {
                &&& #[trigger] r.top_tracks@[x].plays == name_count(
                    track_keys(rows_view(plays@)),
                    track_key_of(r.top_tracks@[x]),
                )
                &&& metadata_view(r.top_tracks@[x].metadata) == play_metadata(
                    rows_view(plays@)[first_index(
                        track_keys(rows_view(plays@)),
                        track_key_of(r.top_tracks@[x]),
                    )],
                )
            },
        (r.user_percentile is Some) == (user_did is Some && r.total_users > 0),
        forall|k: int, l: int|
            0 <= k <= l < r.distribution.duration_percentiles@.len()
                ==> r.distribution.duration_percentiles@[k].1
                <= r.distribution.duration_percentiles@[l].1,
        forall|k: int, l: int|
            0 <= k <= l < r.distribution.plays_percentiles@.len()
                ==> r.distribution.plays_percentiles@[k].1 <= r.distribution.plays_percentiles@[l].1,
        forall|k: int, l: int|
            0 <= k <= l < r.distribution.artists_percentiles@.len()
                ==> r.distribution.artists_percentiles@[k].1
                <= r.distribution.artists_percentiles@[l].1,
        forall|k: int, l: int|
            0 <= k <= l < r.distribution.tracks_percentiles@.len()
                ==> r.distribution.tracks_percentiles@[k].1
                <= r.distribution.tracks_percentiles@[l].1,
        exists|t: Seq<UserTotals>|
            {
                &&& is_user_totals(rows_view(plays@), t)
                &&& is_percentile_table(duration_col(t), 100, false, r.distribution.duration_percentiles@)
                &&& is_percentile_table(plays_col(t), 100, true, r.distribution.plays_percentiles@)
                &&& is_percentile_table(artists_col(t), 100, true, r.distribution.artists_percentiles@)
                &&& is_percentile_table(tracks_col(t), 100, true, r.distribution.tracks_percentiles@)
                &&& (r.user_percentile matches Some(p) ==> is_user_percentile(t, user_did->0@, p))
            },
{
    let totals = user_totals(plays);
    let n = totals.len() as u64;
    let user_percentile = match user_did {
        Some(u) => {
            if n == 0 {
                None
            } else {
                let (d, c, a, k): (i64, i64, i64, i64) = match find_totals(&totals, u) {
                    Some(i) => {
                        let e = &totals[i];
                        (e.duration_ms, e.plays as i64, e.unique_artists as i64, e.unique_tracks as i64)
                    },
                    None => (0, 0, 0, 0),
                };
                let minutes = percentile_rank(&column_of(&totals, 0), d, n);
                let plays_rank = percentile_rank(&column_of(&totals, 1), c, n);
                let artists_rank = percentile_rank(&column_of(&totals, 2), a, n);
                let tracks_rank = percentile_rank(&column_of(&totals, 3), k, n);
                match (minutes, plays_rank, artists_rank, tracks_rank) {
                    (Some(m), Some(p), Some(ar), Some(tr)) => Some(
                        UserPercentile {
                            total_minutes: m,
                            total_plays: p,
                            unique_artists: ar,
                            unique_tracks: tr,
                        },
                    ),
                    _ => None,
                }
            }
        },
        None => None,
    };
    let distribution = Distribution {
        duration_percentiles: percentile_table(&column_of(&totals, 0), 100),
        plays_percentiles: whole_percentile_table(&column_of(&totals, 1), 100),
        artists_percentiles: whole_percentile_table(&column_of(&totals, 2), 100),
        tracks_percentiles: whole_percentile_table(&column_of(&totals, 3), 100),
    };
    let unique_artists = count_distinct(&all_credit_column(plays));
    let unique_tracks = count_distinct(&title_column(plays));
    let tracks = top_tracks(plays, WRAPPED_TOP_N);
    assert forall|x: int| 0 <= x < tracks@.len() implies metadata_view(tracks@[x].metadata) == play_metadata(
        rows_view(plays@)[first_index(track_keys(rows_view(plays@)), track_key_of(tracks@[x]))],
    ) by {
        assert(tracks@[x].plays == name_count(track_keys(rows_view(plays@)), track_key_of(tracks@[x])));
    }
    GlobalWrappedStats {
        verified_duration_ms: verified_duration(plays),
        total_users: n,
        unique_artists,
        unique_tracks,
        top_users: top_users(plays, WRAPPED_TOP_USERS),
        top_artists: top_artists(plays, WRAPPED_TOP_N),
        top_tracks: tracks,
        user_percentile,
        distribution,
    }
}

} // verus!
