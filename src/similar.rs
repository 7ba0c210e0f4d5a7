//! Taste similarity: the other users who share the most artists with a user.

use vstd::prelude::*;
use crate::group::{
    first_index, group_by_name, group_key, group_names, index_above, lemma_grouping_facts,
    lemma_full_listing, listed, top_indices, views, Key,
};
use crate::play::{rows_view, PlayRow, RowView};
use crate::stats::MAX_PLAYS;

verus! {

/// The primary artist of every play of user `u` that credits one, keyed by
/// name.
pub open spec fn primary_artists_of(plays: Seq<RowView>, u: Seq<char>) -> Seq<Key>
    decreases plays.len(),
{
    if plays.len() == 0 {
        Seq::empty()
    } else {
        let rest = primary_artists_of(plays.drop_last(), u);
        let p = plays.last();
        if p.user_did == u && p.artists.len() > 0 {
            rest.push((p.artists[0].0, Seq::<char>::empty()))
        } else {
            rest
        }
    }
}

/// Every play keyed by its user.
pub open spec fn user_keys(plays: Seq<RowView>) -> Seq<Key> {
    plays.map_values(|p: RowView| (p.user_did, Seq::<char>::empty()))
}

/// The primary artists that users `u` and `v` both played.
pub open spec fn shared_set(plays: Seq<RowView>, u: Seq<char>, v: Seq<char>) -> Set<Key> {
    primary_artists_of(plays, v).to_set().intersect(primary_artists_of(plays, u).to_set())
}

pub open spec fn shared_count(plays: Seq<RowView>, u: Seq<char>, v: Seq<char>) -> nat {
    shared_set(plays, u, v).len()
}

/// `v` is another user than `u` with at least one artist in common.
pub open spec fn is_candidate(plays: Seq<RowView>, u: Seq<char>, v: Seq<char>) -> bool {
    &&& user_keys(plays).contains((v, Seq::<char>::empty()))
    &&& v != u
    &&& shared_count(plays, u, v) > 0
}

/// `a` ranks above `b`: more shared artists, or as many and seen first.
pub open spec fn user_above(plays: Seq<RowView>, u: Seq<char>, a: Seq<char>, b: Seq<char>) -> bool {
    shared_count(plays, u, a) > shared_count(plays, u, b) || (shared_count(plays, u, a)
        == shared_count(plays, u, b) && first_index(user_keys(plays), (a, Seq::<char>::empty()))
        < first_index(user_keys(plays), (b, Seq::<char>::empty())))
}

pub open spec fn name_keys(v: Seq<String>) -> Seq<Key> {
    v.map_values(|s: String| (s@, Seq::<char>::empty()))
}

/// A user with music taste close to another's.
pub struct SimilarUser {
    pub did: String,
    /// How many artists the two users share.
    pub similarity_score: u64,
    pub shared_artists: Vec<String>,
}

proof fn lemma_primary_keys_plain(plays: Seq<RowView>, u: Seq<char>, k: Key)
    requires
        primary_artists_of(plays, u).contains(k),
    ensures
        k.1 == Seq::<char>::empty(),
    decreases plays.len(),
{
    if plays.len() > 0 {
        let rest = primary_artists_of(plays.drop_last(), u);
        let all = primary_artists_of(plays, u);
        let i = choose|i: int| 0 <= i < all.len() && all[i] == k;
        if plays.last().user_did == u && plays.last().artists.len() > 0 {
            if i < rest.len() {
                assert(rest[i] == k);
                lemma_primary_keys_plain(plays.drop_last(), u, k);
            }
        } else {
            lemma_primary_keys_plain(plays.drop_last(), u, k);
        }
    }
}

fn primary_artist_column(plays: &Vec<PlayRow>, u: &String) -> (r: Vec<(String, String)>)
    ensures
        views(r@) == primary_artists_of(rows_view(plays@), u@),
{
    let ghost pv = rows_view(plays@);
    let mut r: Vec<(String, String)> = Vec::new();
    let mut i: usize = 0;
    while i < plays.len()
        invariant
            pv == rows_view(plays@),
            i <= plays@.len(),
            views(r@) == primary_artists_of(pv.take(i as int), u@),
        decreases plays@.len() - i,
    {
        assert(pv.take(i + 1).drop_last() =~= pv.take(i as int));
        let p = &plays[i];
        if p.user_did.eq(u) && p.artists.len() > 0 {
            let ghost before = views(r@);
            r.push((p.artists[0].name.clone(), String::new()));
            assert(views(r@) =~= before.push((p.artists@[0].name@, Seq::<char>::empty())));
        }
        i = i + 1;
    }
    assert(pv.take(i as int) =~= pv);
    r
}

/// The distinct keys of `names`, in order of first occurrence.
pub fn distinct_keys(names: &Vec<(String, String)>) -> (r: Vec<(String, String)>)
    ensures
        views(r@).no_duplicates(),
        views(r@).to_set() == views(names@).to_set(),
{
    let mut r: Vec<(String, String)> = Vec::new();
    let mut i: usize = 0;
    while i < names.len()
        invariant
            i <= names@.len(),
            views(r@).no_duplicates(),
            views(r@).to_set() == views(names@).take(i as int).to_set(),
        decreases names@.len() - i,
    {
        let n = &names[i];
        let mut j: usize = 0;
        while j < r.len() && !(r[j].0.eq(&n.0) && r[j].1.eq(&n.1))
            invariant
                i < names@.len(),
                *n == names@[i as int],
                j <= r@.len(),
                forall|k: int| 0 <= k < j ==> views(r@)[k] != views(names@)[i as int],
            decreases r@.len() - j,
        {
            assert(views(r@)[j as int] == (r@[j as int].0@, r@[j as int].1@));
            assert(views(names@)[i as int] == (n.0@, n.1@));
            j = j + 1;
        }
        let ghost before = views(r@);
        let ghost k = views(names@)[i as int];
        assert(views(names@).take(i + 1) =~= views(names@).take(i as int).push(k));
        if j == r.len() {
            r.push((n.0.clone(), n.1.clone()));
            assert(views(r@) =~= before.push(k));
            proof {
                before.lemma_push_to_set_commute(k);
            }
        } else {
            assert(before[j as int] == k);
            assert(before.to_set().insert(k) =~= before.to_set());
        }
        proof {
            views(names@).take(i as int).lemma_push_to_set_commute(k);
        }
        i = i + 1;
    }
    assert(views(names@).take(i as int) =~= views(names@));
    r
}

fn contains_key(v: &Vec<(String, String)>, k: &(String, String)) -> (r: bool)
    ensures
        r == views(v@).contains((k.0@, k.1@)),
{
    let mut j: usize = 0;
    while j < v.len()
        invariant
            j <= v@.len(),
            forall|x: int| 0 <= x < j ==> views(v@)[x] != (k.0@, k.1@),
        decreases v@.len() - j,
    {
        assert(views(v@)[j as int] == (v@[j as int].0@, v@[j as int].1@));
        if v[j].0.eq(&k.0) && v[j].1.eq(&k.1) {
            return true;
        }
        j = j + 1;
    }
    false
}

/// The artists users `u` and `v` both played, each once.
fn shared_artists_of(plays: &Vec<PlayRow>, u: &String, v: &String) -> (r: Vec<(String, String)>)
    ensures
        views(r@).no_duplicates(),
        views(r@).to_set() == shared_set(rows_view(plays@), u@, v@),
        forall|x: int| 0 <= x < r@.len() ==> (#[trigger] r@[x]).1@ == Seq::<char>::empty(),
{
    let ghost pv = rows_view(plays@);
    let mine = distinct_keys(&primary_artist_column(plays, u));
    let theirs = distinct_keys(&primary_artist_column(plays, v));
    let mut r: Vec<(String, String)> = Vec::new();
    let mut j: usize = 0;
    while j < theirs.len()
        invariant
            pv == rows_view(plays@),
            j <= theirs@.len(),
            views(theirs@).no_duplicates(),
            views(theirs@).to_set() == primary_artists_of(pv, v@).to_set(),
            views(mine@).to_set() == primary_artists_of(pv, u@).to_set(),
            views(r@).no_duplicates(),
            views(r@).to_set() == views(theirs@).take(j as int).to_set().intersect(
                views(mine@).to_set(),
            ),
            forall|x: int| 0 <= x < r@.len() ==> (#[trigger] r@[x]).1@ == Seq::<char>::empty(),
        decreases theirs@.len() - j,
    {
        let ghost k = views(theirs@)[j as int];
        assert(views(theirs@).take(j + 1) =~= views(theirs@).take(j as int).push(k));
        proof {
            views(theirs@).take(j as int).lemma_push_to_set_commute(k);
        }
        let t = &theirs[j];
        assert(k == (t.0@, t.1@));
        if contains_key(&mine, t) {
            let ghost before = views(r@);
            assert(!before.contains(k)) by {
                if before.contains(k) {
                    assert(before.to_set().contains(k));
                    let y = choose|y: int| 0 <= y < j && views(theirs@)[y] == k;
                }
            }
            proof {
                assert(views(theirs@).to_set().contains(k));
                lemma_primary_keys_plain(pv, v@, k);
            }
            r.push((t.0.clone(), t.1.clone()));
            assert(views(r@) =~= before.push(k));
            proof {
                before.lemma_push_to_set_commute(k);
            }
            assert(views(r@).to_set() =~= views(theirs@).take(j + 1).to_set().intersect(
                views(mine@).to_set(),
            ));
        } else {
            assert(views(r@).to_set() =~= views(theirs@).take(j + 1).to_set().intersect(
                views(mine@).to_set(),
            ));
        }
        j = j + 1;
    }
    assert(views(theirs@).take(j as int) =~= views(theirs@));
    r
}

/// The `limit` other users who share the most artists with `user_did`,
/// most shared first, first seen first among equals; users sharing none are
/// left out.
pub fn find_similar_users(plays: &Vec<PlayRow>, user_did: &String, limit: usize) -> (r: Vec<
    SimilarUser,
>)
    requires
        plays@.len() <= MAX_PLAYS,
    ensures
        r@.len() <= limit,
        forall|x: int|
            0 <= x < r@.len() ==> {
                &&& is_candidate(rows_view(plays@), user_did@, #[trigger] r@[x].did@)
                &&& r@[x].similarity_score == shared_count(rows_view(plays@), user_did@, r@[x].did@)
                &&& name_keys(r@[x].shared_artists@).no_duplicates()
                &&& name_keys(r@[x].shared_artists@).to_set() == shared_set(
                    rows_view(plays@),
                    user_did@,
                    r@[x].did@,
                )
            },
        forall|x: int, y: int|
            0 <= x < y < r@.len() ==> user_above(
                rows_view(plays@),
                user_did@,
                r@[x].did@,
                r@[y].did@,
            ),
        forall|v: Seq<char>|
            is_candidate(rows_view(plays@), user_did@, v) && !(exists|x: int|
                0 <= x < r@.len() && #[trigger] r@[x].did@ == v) ==> r@.len() == limit && forall|x: int|
                0 <= x < r@.len() ==> user_above(rows_view(plays@), user_did@, #[trigger] r@[x].did@, v),
{
    let ghost pv = rows_view(plays@);
    let ghost uk = user_keys(pv);
    let mut keys: Vec<(String, String)> = Vec::new();
    let mut zeros: Vec<i64> = Vec::new();
    let mut i: usize = 0;
    while i < plays.len()
        invariant
            pv == rows_view(plays@),
            uk == user_keys(pv),
            i <= plays@.len(),
            views(keys@) == uk.take(i as int),
            keys@.len() == zeros@.len() == i,
            forall|j: int| 0 <= j < zeros@.len() ==> #[trigger] zeros@[j] == 0,
        decreases plays@.len() - i,
    {
        keys.push((plays[i].user_did.clone(), String::new()));
        zeros.push(0);
        i = i + 1;
        assert(views(keys@) =~= uk.take(i as int));
    }
    assert(uk.take(i as int) =~= uk);
    let users = group_by_name(&keys, &zeros);
    proof {
        lemma_grouping_facts(uk, zeros@, users@);
    }
    let ghost ug = users@;
    assert forall|j: int| 0 <= j < ug.len() implies (#[trigger] ug[j]).by@ == Seq::<char>::empty() by {
        assert(uk.contains(group_key(ug[j])));
        let m = choose|m: int| 0 <= m < uk.len() && uk[m] == group_key(ug[j]);
    }
    let mut counts: Vec<u64> = Vec::new();
    let mut shared: Vec<Vec<(String, String)>> = Vec::new();
    let mut j: usize = 0;
    while j < users.len()
        invariant
            pv == rows_view(plays@),
            ug == users@,
            j <= ug.len(),
            counts@.len() == j,
            shared@.len() == j,
            forall|x: int|
                0 <= x < j ==> {
                    &&& #[trigger] counts@[x] == if ug[x].name@ == user_did@ {
                        0
                    } else {
                        shared_count(pv, user_did@, ug[x].name@)
                    }
                    &&& views(shared@[x]@).no_duplicates()
                    &&& views(shared@[x]@).to_set() == shared_set(pv, user_did@, ug[x].name@)
                    &&& forall|y: int|
                        0 <= y < shared@[x]@.len() ==> (#[trigger] shared@[x]@[y]).1@ == Seq::<
                            char,
                        >::empty()
                },
        decreases ug.len() - j,
    {
        let other = &users[j].name;
        let common = shared_artists_of(plays, user_did, other);
        proof {
            views(common@).unique_seq_to_set();
        }
        if other.eq(user_did) {
            counts.push(0);
        } else {
            counts.push(common.len() as u64);
        }
        shared.push(common);
        j = j + 1;
    }
    let idx = top_indices(&counts, limit);
    let mut r: Vec<SimilarUser> = Vec::new();
    let mut x: usize = 0;
    while x < idx.len() && counts[idx[x]] > 0
        invariant
            pv == rows_view(plays@),
            ug == users@,
            counts@.len() == ug.len() == shared@.len(),
            x <= idx@.len(),
            r@.len() == x,
            forall|x: int|
                0 <= x < ug.len() ==> {
                    &&& #[trigger] counts@[x] == if ug[x].name@ == user_did@ {
                        0
                    } else {
                        shared_count(pv, user_did@, ug[x].name@)
                    }
                    &&& views(shared@[x]@).no_duplicates()
                    &&& views(shared@[x]@).to_set() == shared_set(pv, user_did@, ug[x].name@)
                    &&& forall|y: int|
                        0 <= y < shared@[x]@.len() ==> (#[trigger] shared@[x]@[y]).1@ == Seq::<
                            char,
                        >::empty()
                },
            forall|y: int| 0 <= y < idx@.len() ==> #[trigger] idx@[y] < counts@.len(),
            forall|y: int| 0 <= y < x ==> counts@[#[trigger] idx@[y] as int] > 0,
            forall|y: int|
                0 <= y < x ==> {
                    &&& #[trigger] r@[y].did@ == ug[idx@[y] as int].name@
                    &&& r@[y].similarity_score == counts@[idx@[y] as int]
                    &&& name_keys(r@[y].shared_artists@) == views(shared@[idx@[y] as int]@)
                },
        decreases idx@.len() - x,
    {
        let k = idx[x];
        let src = &shared[k];
        let mut names: Vec<String> = Vec::new();
        let mut t: usize = 0;
        while t < src.len()
            invariant
                t <= src@.len(),
                names@.len() == t,
                forall|y: int| 0 <= y < src@.len() ==> (#[trigger] src@[y]).1@ == Seq::<char>::empty(),
                forall|y: int| 0 <= y < t ==> #[trigger] names@[y]@ == src@[y].0@,
            decreases src@.len() - t,
        {
            names.push(src[t].0.clone());
            t = t + 1;
        }
        assert(name_keys(names@) =~= views(src@));
        let ghost old_r = r@;
        r.push(SimilarUser { did: users[k].name.clone(), similarity_score: counts[k], shared_artists: names });
        assert(r@[x as int].did@ == ug[idx@[x as int] as int].name@);
        assert(name_keys(r@[x as int].shared_artists@) == views(shared@[idx@[x as int] as int]@));
        assert(forall|y: int| 0 <= y < x ==> r@[y] == old_r[y]);
        x = x + 1;
    }
    proof {
        let cut = x as int;
        // What the kept positions say about the users.
        assert forall|a: int| 0 <= a < ug.len() && counts@[a] > 0 implies ug[a].name@ != user_did@
            && is_candidate(pv, user_did@, ug[a].name@) && counts@[a] == shared_count(
            pv,
            user_did@,
            ug[a].name@,
        ) by {
            assert(group_names(ug).to_set().contains(group_key(ug[a])));
            assert(group_names(ug)[a] == group_key(ug[a]));
            assert(ug[a].by@ == Seq::<char>::empty());
        }
        assert forall|a: int, b: int|
            0 <= a < ug.len() && 0 <= b < ug.len() && counts@[a] > 0 && counts@[b] > 0 && index_above(
                counts@,
                a,
                b,
            ) implies user_above(pv, user_did@, ug[a].name@, ug[b].name@) by {
            assert(ug[a].by@ == Seq::<char>::empty());
            assert(ug[b].by@ == Seq::<char>::empty());
            assert(group_key(ug[a]) == (ug[a].name@, Seq::<char>::empty()));
            assert(group_key(ug[b]) == (ug[b].name@, Seq::<char>::empty()));
            if a > b {
                assert(first_index(uk, group_key(ug[b])) < first_index(uk, group_key(ug[a])));
            }
        }
        assert forall|y: int| 0 <= y < r@.len() implies {
            &&& is_candidate(pv, user_did@, #[trigger] r@[y].did@)
            &&& r@[y].similarity_score == shared_count(pv, user_did@, r@[y].did@)
            &&& name_keys(r@[y].shared_artists@).no_duplicates()
            &&& name_keys(r@[y].shared_artists@).to_set() == shared_set(pv, user_did@, r@[y].did@)
        } by {
            let a = idx@[y] as int;
            assert(counts@[a] > 0);
            assert(r@[y].did@ == ug[a].name@);
        }
        assert forall|y: int, z: int| 0 <= y < z < r@.len() implies user_above(
            pv,
            user_did@,
            r@[y].did@,
            r@[z].did@,
        ) by {
            let a = idx@[y] as int;
            let b = idx@[z] as int;
            assert(counts@[a] > 0 && counts@[b] > 0);
            assert(index_above(counts@, a, b));
        }
        assert forall|v: Seq<char>|
            is_candidate(pv, user_did@, v) && !(exists|y: int|
                0 <= y < r@.len() && #[trigger] r@[y].did@ == v) implies r@.len() == limit
            && forall|y: int|
            0 <= y < r@.len() ==> user_above(pv, user_did@, #[trigger] r@[y].did@, v) by {
            let key = (v, Seq::<char>::empty());
            assert(group_names(ug).to_set().contains(key));
            let b = choose|b: int| 0 <= b < ug.len() && group_names(ug)[b] == key;
            assert(ug[b].name@ == v);
            assert(counts@[b] > 0);
            if listed(idx@, b) {
                let z = choose|z: int| 0 <= z < idx@.len() && idx@[z] as int == b;
                if z < cut {
                    assert(r@[z].did@ == v);
                } else {
                    assert(cut < idx@.len());
                    assert(counts@[idx@[cut] as int] == 0);
                    if cut < z {
                        assert(index_above(counts@, idx@[cut] as int, idx@[z] as int));
                    }
                }
            } else {
                if idx@.len() < limit {
                    assert(idx@.len() == counts@.len());
                    assert forall|p: int, q: int| 0 <= p < q < idx@.len() implies idx@[p] != idx@[q] by {
                        assert(index_above(counts@, idx@[p] as int, idx@[q] as int));
                    }
                    lemma_full_listing(idx@, counts@.len() as int);
                }
                if cut < idx@.len() {
                    assert(counts@[idx@[cut] as int] == 0);
                    assert(index_above(counts@, idx@[cut] as int, b));
                }
                assert forall|y: int| 0 <= y < r@.len() implies user_above(
                    pv,
                    user_did@,
                    #[trigger] r@[y].did@,
                    v,
                ) by {
                    let a = idx@[y] as int;
                    assert(index_above(counts@, a, b));
                    assert(counts@[a] > 0);
                    assert(r@[y].did@ == ug[a].name@);
                }
            }
        }
    }
    r
}

} // verus!
