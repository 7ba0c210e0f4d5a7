//! Grouping plays under a name, and ranking the groups by play count.

use vstd::prelude::*;

verus! {

/// A grouping key: a name, and a second name that tells apart equal first
/// names (empty where none is needed).
pub type Key = (Seq<char>, Seq<char>);

pub open spec fn views(v: Seq<(String, String)>) -> Seq<Key> {
    v.map_values(|p: (String, String)| (p.0@, p.1@))
}

/// How often `n` occurs in `names`.
pub open spec fn name_count(names: Seq<Key>, n: Key) -> nat
    decreases names.len(),
{
    if names.len() == 0 {
        0
    } else {
        name_count(names.drop_last(), n) + if names.last() == n {
            1nat
        } else {
            0nat
        }
    }
}

/// The sum of the weights at the positions where `n` occurs in `names`.
pub open spec fn name_weight(names: Seq<Key>, weights: Seq<i64>, n: Key) -> int
    decreases names.len(),
{
    if names.len() == 0 || weights.len() != names.len() {
        0
    } else {
        name_weight(names.drop_last(), weights.drop_last(), n) + if names.last() == n {
            weights.last() as int
        } else {
            0
        }
    }
}

/// The position where `n` first occurs in `names`.
pub open spec fn first_index(names: Seq<Key>, n: Key) -> int
    decreases names.len(),
{
    if names.len() == 0 {
        0
    } else if name_count(names.drop_last(), n) > 0 {
        first_index(names.drop_last(), n)
    } else {
        names.len() - 1
    }
}

/// `a` ranks above `b`: more plays, or as many and seen first.
pub open spec fn ranks_above(names: Seq<Key>, a: Key, b: Key) -> bool {
    name_count(names, a) > name_count(names, b) || (name_count(names, a) == name_count(names, b)
        && first_index(names, a) < first_index(names, b))
}

/// `top` lists the `limit` highest-ranked distinct names of `names` (all of
/// them when there are fewer), best first.
pub open spec fn is_top(names: Seq<Key>, limit: int, top: Seq<Key>) -> bool {
    &&& top.len() == if names.to_set().len() < limit {
        names.to_set().len() as int
    } else {
        limit
    }
    &&& forall|x: int| 0 <= x < top.len() ==> names.contains(#[trigger] top[x])
    &&& forall|x: int, y: int| 0 <= x < y < top.len() ==> ranks_above(names, top[x], top[y])
    &&& forall|n: Key|
        names.contains(n) && !top.contains(n) ==> forall|x: int|
            0 <= x < top.len() ==> ranks_above(names, #[trigger] top[x], n)
}

/// One key, with how often it occurs and the sum of its weights.
pub struct NameGroup {
    pub name: String,
    pub by: String,
    pub plays: u64,
    pub weight: i64,
}

pub open spec fn group_key(g: NameGroup) -> Key {
    (g.name@, g.by@)
}

pub open spec fn group_names(g: Seq<NameGroup>) -> Seq<Key> {
    g.map_values(|x: NameGroup| group_key(x))
}

/// The distinct names of `names` in order of first occurrence, with their
/// counts and weight sums.
pub open spec fn is_grouping(names: Seq<Key>, weights: Seq<i64>, g: Seq<NameGroup>) -> bool {
    &&& forall|i: int|
        0 <= i < g.len() ==> {
            &&& #[trigger] g[i].plays == name_count(names, group_key(g[i]))
            &&& g[i].weight == name_weight(names, weights, group_key(g[i]))
            &&& g[i].plays > 0
        }
    &&& forall|i: int, j: int|
        0 <= i < j < g.len() ==> first_index(names, group_key(g[i])) < first_index(
            names,
            group_key(g[j]),
        )
    &&& forall|n: Key| names.contains(n) ==> group_names(g).contains(n)
}

pub proof fn lemma_count_positive(names: Seq<Key>, m: int)
    requires
        0 <= m < names.len(),
    ensures
        name_count(names, names[m]) > 0,
        first_index(names, names[m]) <= m,
    decreases names.len(),
{
    if m < names.len() - 1 {
        assert(names.drop_last()[m] == names[m]);
        lemma_count_positive(names.drop_last(), m);
    } else if name_count(names.drop_last(), names[m]) > 0 {
        lemma_first_index_bounds(names.drop_last(), names[m]);
    }
}

pub proof fn lemma_first_index_bounds(names: Seq<Key>, n: Key)
    requires
        name_count(names, n) > 0,
    ensures
        0 <= first_index(names, n) < names.len(),
        names[first_index(names, n)] == n,
    decreases names.len(),
{
    if name_count(names.drop_last(), n) > 0 {
        lemma_first_index_bounds(names.drop_last(), n);
    }
}

proof fn lemma_count_zero(names: Seq<Key>, weights: Seq<i64>, n: Key)
    requires
        name_count(names, n) == 0,
    ensures
        name_weight(names, weights, n) == 0,
        !names.contains(n),
    decreases names.len(),
{
    if names.len() > 0 {
        lemma_count_zero(names.drop_last(), weights.drop_last(), n);
        if names.contains(n) {
            let j = choose|j: int| 0 <= j < names.len() && names[j] == n;
            if j < names.len() - 1 {
                assert(names.drop_last()[j] == n);
            }
        }
    }
}

/// Groups equal names together, in order of first occurrence.
pub fn group_by_name(names: &Vec<(String, String)>, weights: &Vec<i64>) -> (g: Vec<NameGroup>)
    requires
        names@.len() == weights@.len(),
        names@.len() <= 2_147_483_648,
        forall|i: int| 0 <= i < weights@.len() ==> -2147483648 <= #[trigger] weights@[i] <= 2147483648,
    ensures
        is_grouping(views(names@), weights@, g@),
{
    let ghost all = views(names@);
    let mut g: Vec<NameGroup> = Vec::new();
    let mut k: usize = 0;
    while k < names.len()
        invariant
            all == views(names@),
            k <= names@.len() == weights@.len() <= 2_147_483_648,
            forall|i: int| 0 <= i < weights@.len() ==> -2147483648 <= #[trigger] weights@[i] <= 2147483648,
            forall|i: int|
                0 <= i < g@.len() ==> {
                    &&& #[trigger] g@[i].plays == name_count(all.take(k as int), group_key(g@[i]))
                    &&& g@[i].weight == name_weight(all.take(k as int), weights@.take(k as int), group_key(g@[i]))
                    &&& g@[i].plays > 0
                    &&& g@[i].plays <= k
                    &&& -(k as int) * 2147483648 <= g@[i].weight <= (k as int) * 2147483648
                    &&& first_index(all.take(k as int), group_key(g@[i])) < k
                },
            forall|i: int, j: int|
                0 <= i < j < g@.len() ==> first_index(all.take(k as int), group_key(g@[i])) < first_index(
                    all.take(k as int),
                    group_key(g@[j]),
                ),
            forall|i: int, j: int| 0 <= i < j < g@.len() ==> group_key(g@[i]) != group_key(g@[j]),
            forall|n: Key|
                #[trigger] name_count(all.take(k as int), n) > 0 ==> group_names(g@).contains(n),
        decreases names@.len() - k,
    {
        let ghost before = all.take(k as int);
        let ghost after = all.take(k + 1);
        let ghost wb = weights@.take(k as int);
        let ghost wa = weights@.take(k + 1);
        assert(after.drop_last() =~= before);
        assert(wa.drop_last() =~= wb);
        let n = &names[k];
        let w = weights[k];
        assert(after.len() == k + 1 && wa.len() == k + 1 && before.len() == k && wb.len() == k);
        assert(after.last() == n@);
        assert(wa.last() == w);
        let mut j: usize = 0;
        while j < g.len() && !(g[j].name.eq(&n.0) && g[j].by.eq(&n.1))
            invariant
                j <= g@.len(),
                forall|i: int| 0 <= i < j ==> group_key(g@[i]) != n@,
            decreases g@.len() - j,
        {
            j = j + 1;
        }
        assert forall|m: Key| m != n@ implies name_count(after, m) == name_count(before, m)
            && name_weight(after, wa, m) == name_weight(before, wb, m) by {}
        assert forall|m: Key| name_count(before, m) > 0 implies first_index(after, m)
            == first_index(before, m) && name_count(after, m) > 0 by {}
        assert(name_count(after, n@) == name_count(before, n@) + 1);
        assert(name_weight(after, wa, n@) == name_weight(before, wb, n@) + w);
        assert(first_index(after, n@) <= k) by {
            if name_count(before, n@) > 0 {
                lemma_first_index_bounds(before, n@);
            }
        }
        let ghost old_g = g@;
        if j < g.len() {
            assert(group_key(g@[j as int]) == n@);
            assert(g@[j as int].plays == name_count(before, group_key(g@[j as int])));
            let grp = NameGroup { name: n.0.clone(), by: n.1.clone(), plays: g[j].plays + 1, weight: g[j].weight + w };
            g.set(j, grp);
        } else {
            assert(name_count(before, n@) == 0) by {
                if name_count(before, n@) > 0 {
                    assert(group_names(old_g).contains(n@));
                    let x = choose|x: int| 0 <= x < old_g.len() && group_names(old_g)[x] == n@;
                }
            }
            proof {
                lemma_count_zero(before, wb, n@);
            }
            g.push(NameGroup { name: n.0.clone(), by: n.1.clone(), plays: 1, weight: w });
        }
        assert forall|m: Key| name_count(after, m) > 0 implies group_names(g@).contains(m) by {
            if m == n@ {
                assert(group_names(g@)[j as int] == m);
            } else {
                assert(name_count(before, m) > 0);
                assert(group_names(old_g).contains(m));
                let x = choose|x: int| 0 <= x < old_g.len() && group_names(old_g)[x] == m;
                assert(group_names(g@)[x] == m);
            }
        }
        assert forall|i: int| 0 <= i < g@.len() implies {
            &&& #[trigger] g@[i].plays == name_count(after, group_key(g@[i]))
            &&& g@[i].weight == name_weight(after, wa, group_key(g@[i]))
            &&& g@[i].plays > 0
            &&& g@[i].plays <= k + 1
            &&& -((k + 1) as int) * 2147483648 <= g@[i].weight <= ((k + 1) as int) * 2147483648
            &&& first_index(after, group_key(g@[i])) < k + 1
        } by {
            if i != j {
                assert(old_g[i] == g@[i]);
                assert(old_g[i].plays > 0);
                assert(group_key(g@[i]) != n@);
            }
        }
        assert forall|a: int, b: int| 0 <= a < b < g@.len() implies first_index(
            after,
            group_key(g@[a]),
        ) < first_index(after, group_key(g@[b])) by {
            assert(g@[a].plays > 0);
            assert(a < old_g.len());
            assert(old_g[a].plays > 0);
            if b < old_g.len() {
                assert(old_g[b].plays > 0);
            }
        }
        k = k + 1;
    }
    assert(all.take(k as int) =~= all);
    assert(weights@.take(k as int) =~= weights@);
    assert forall|n: Key| all.contains(n) implies group_names(g@).contains(n) by {
        let m = choose|m: int| 0 <= m < all.len() && all[m] == n;
        lemma_count_positive(all, m);
    }
    g
}

pub proof fn lemma_grouping_facts(names: Seq<Key>, weights: Seq<i64>, g: Seq<NameGroup>)
    requires
        is_grouping(names, weights, g),
    ensures
        group_names(g).no_duplicates(),
        group_names(g).to_set() == names.to_set(),
        names.to_set().len() == g.len(),
        forall|i: int| 0 <= i < g.len() ==> names.contains(#[trigger] group_key(g[i])),
{
    assert forall|i: int| 0 <= i < g.len() implies names.contains(#[trigger] group_key(g[i])) by {
        assert(g[i].plays > 0);
        lemma_first_index_bounds(names, group_key(g[i]));
    }
    assert forall|i: int, j: int| 0 <= i < g.len() && 0 <= j < g.len() && i != j implies
        group_names(g)[i] != group_names(g)[j] by {
        if i < j {
            assert(first_index(names, group_key(g[i])) < first_index(names, group_key(g[j])));
        } else {
            assert(first_index(names, group_key(g[j])) < first_index(names, group_key(g[i])));
        }
    }
    assert(group_names(g).to_set() =~= names.to_set()) by {
        assert forall|n: Key| names.to_set().contains(n) implies group_names(
            g,
        ).to_set().contains(n) by {
            assert(names.contains(n));
        }
        assert forall|n: Key| group_names(g).to_set().contains(n) implies names.to_set().contains(n) by {
            let i = choose|i: int| 0 <= i < g.len() && group_names(g)[i] == n;
            assert(names.contains(group_key(g[i])));
        }
    }
    group_names(g).unique_seq_to_set();
}

/// The `limit` highest-ranked names with their counts and weight sums, best
/// first: more occurrences first, earlier first occurrence among equals.
pub fn top_groups(names: &Vec<(String, String)>, weights: &Vec<i64>, limit: usize) -> (r: Vec<NameGroup>)
    requires
        names@.len() == weights@.len(),
        names@.len() <= 2_147_483_648,
        forall|i: int| 0 <= i < weights@.len() ==> -2147483648 <= #[trigger] weights@[i] <= 2147483648,
    ensures
        is_top(views(names@), limit as int, group_names(r@)),
        forall|x: int|
            0 <= x < r@.len() ==> #[trigger] r@[x].plays == name_count(views(names@), group_key(r@[x])),
        forall|x: int|
            0 <= x < r@.len() ==> #[trigger] r@[x].weight == name_weight(
                views(names@),
                weights@,
                group_key(r@[x]),
            ),
{
    let ghost all = views(names@);
    let g = group_by_name(names, weights);
    proof {
        lemma_grouping_facts(all, weights@, g@);
    }
    let mut counts: Vec<u64> = Vec::new();
    let mut i: usize = 0;
    while i < g.len()
        invariant
            i <= g@.len(),
            counts@.len() == i,
            forall|x: int| 0 <= x < i ==> #[trigger] counts@[x] == g@[x].plays,
        decreases g@.len() - i,
    {
        counts.push(g[i].plays);
        i = i + 1;
    }
    let idx = top_indices(&counts, limit);
    let mut r: Vec<NameGroup> = Vec::new();
    let mut x: usize = 0;
    while x < idx.len()
        invariant
            x <= idx@.len(),
            r@.len() == x,
            forall|y: int| 0 <= y < idx@.len() ==> #[trigger] idx@[y] < g@.len(),
            forall|y: int| 0 <= y < x ==> #[trigger] r@[y] == g@[idx@[y] as int],
        decreases idx@.len() - x,
    {
        let e = &g[idx[x]];
        r.push(NameGroup { name: e.name.clone(), by: e.by.clone(), plays: e.plays, weight: e.weight });
        x = x + 1;
    }
    proof {
        let top = group_names(r@);
        assert forall|a: int, b: int| 0 <= a < g@.len() && 0 <= b < g@.len() && index_above(
            counts@,
            a,
            b,
        ) implies ranks_above(all, group_key(g@[a]), group_key(g@[b])) by {
            assert(counts@[a] == g@[a].plays && counts@[b] == g@[b].plays);
            assert(g@[a].plays > 0 && g@[b].plays > 0);
        }
        assert forall|y: int| 0 <= y < top.len() implies all.contains(#[trigger] top[y]) by {
            assert(r@[y] == g@[idx@[y] as int]);
        }
        assert forall|a: int, b: int| 0 <= a < b < top.len() implies ranks_above(
            all,
            top[a],
            top[b],
        ) by {
            assert(r@[a] == g@[idx@[a] as int]);
            assert(r@[b] == g@[idx@[b] as int]);
            assert(index_above(counts@, idx@[a] as int, idx@[b] as int));
            assert(idx@[a] < g@.len() && idx@[b] < g@.len());
            assert(ranks_above(all, group_key(g@[idx@[a] as int]), group_key(g@[idx@[b] as int])));
        }
        assert forall|n: Key| all.contains(n) && !top.contains(n) implies forall|y: int|
            0 <= y < top.len() ==> ranks_above(all, #[trigger] top[y], n) by {
            assert(group_names(g@).to_set().contains(n));
            let j = choose|j: int| 0 <= j < g@.len() && group_names(g@)[j] == n;
            assert(!listed(idx@, j)) by {
                if listed(idx@, j) {
                    let y = choose|y: int| 0 <= y < idx@.len() && idx@[y] as int == j;
                    assert(r@[y] == g@[j]);
                    assert(top[y] == n);
                }
            }
            assert forall|y: int| 0 <= y < top.len() implies ranks_above(all, #[trigger] top[y], n) by {
                assert(r@[y] == g@[idx@[y] as int]);
                assert(index_above(counts@, idx@[y] as int, j));
            }
        }
        assert forall|y: int| 0 <= y < r@.len() implies #[trigger] r@[y].plays == name_count(
            all,
            group_key(r@[y]),
        ) && r@[y].weight == name_weight(all, weights@, group_key(r@[y])) by {
            assert(r@[y] == g@[idx@[y] as int]);
            assert(g@[idx@[y] as int].plays > 0);
        }
        assert forall|y: int| 0 <= y < r@.len() implies #[trigger] r@[y].weight == name_weight(
            all,
            weights@,
            group_key(r@[y]),
        ) by {
            assert(r@[y].plays == name_count(all, group_key(r@[y])));
        }
    }
    r
}

/// A key that first occurs at `i` has `i` as its first index.
pub proof fn lemma_first_occurrence(names: Seq<Key>, n: Key, i: int)
    requires
        0 <= i < names.len(),
        names[i] == n,
        forall|j: int| 0 <= j < i ==> names[j] != n,
    ensures
        first_index(names, n) == i,
    decreases names.len(),
{
    if i < names.len() - 1 {
        assert(names.drop_last()[i] == n);
        lemma_count_positive(names.drop_last(), i);
        lemma_first_occurrence(names.drop_last(), n, i);
    } else {
        lemma_absent_count(names.drop_last(), n);
    }
}

pub proof fn lemma_absent_count(names: Seq<Key>, n: Key)
    requires
        forall|j: int| 0 <= j < names.len() ==> names[j] != n,
    ensures
        name_count(names, n) == 0,
    decreases names.len(),
{
    if names.len() > 0 {
        lemma_absent_count(names.drop_last(), n);
    }
}

/// The number of distinct keys in `names`.
pub fn distinct_count(names: &Vec<(String, String)>) -> (r: usize)
    requires
        names@.len() <= 2_147_483_648,
    ensures
        r == views(names@).to_set().len(),
{
    let zeros: Vec<i64> = vec![0i64; names.len()];
    let g = group_by_name(names, &zeros);
    proof {
        lemma_grouping_facts(views(names@), zeros@, g@);
    }
    g.len()
}

/// `i` ranks above `j`: a higher count, or an equal one and an earlier position.
pub open spec fn index_above(c: Seq<u64>, i: int, j: int) -> bool {
    c[i] > c[j] || (c[i] == c[j] && i < j)
}

pub open spec fn listed(r: Seq<usize>, j: int) -> bool {
    exists|x: int| 0 <= x < r.len() && r[x] as int == j
}

/// The positions of the `limit` largest counts, largest first, earlier
/// positions first among equal counts.
pub fn top_indices(c: &Vec<u64>, limit: usize) -> (r: Vec<usize>)
    ensures
        r@.len() == if c@.len() < limit {
            c@.len() as int
        } else {
            limit as int
        },
        forall|x: int| 0 <= x < r@.len() ==> #[trigger] r@[x] < c@.len(),
        forall|x: int, y: int|
            0 <= x < y < r@.len() ==> index_above(c@, r@[x] as int, r@[y] as int),
        forall|j: int|
            0 <= j < c@.len() && !#[trigger] listed(r@, j) ==> forall|x: int|
                0 <= x < r@.len() ==> index_above(c@, #[trigger] r@[x] as int, j),
{
    let n = c.len();
    let want = if n < limit {
        n
    } else {
        limit
    };
    let mut taken: Vec<bool> = vec![false; n];
    let mut r: Vec<usize> = Vec::new();
    while r.len() < want
        invariant
            n == c@.len() == taken@.len(),
            want <= n,
            r@.len() <= want,
            forall|x: int| 0 <= x < r@.len() ==> #[trigger] r@[x] < n,
            forall|j: int| 0 <= j < n ==> (taken@[j] <==> #[trigger] listed(r@, j)),
            forall|x: int, y: int|
                0 <= x < y < r@.len() ==> index_above(c@, r@[x] as int, r@[y] as int),
            forall|j: int|
                0 <= j < n && !taken@[j] ==> forall|x: int|
                    0 <= x < r@.len() ==> index_above(c@, #[trigger] r@[x] as int, j),
            forall|x: int, y: int| 0 <= x < y < r@.len() ==> r@[x] != r@[y],
        decreases want - r@.len(),
    {
        proof {
            lemma_free_position(r@, n as int);
        }
        let mut best: usize = n;
        let mut j: usize = 0;
        while j < n
            invariant
                n == c@.len() == taken@.len(),
                j <= n,
                best == n || (best < j && !taken@[best as int]),
                best == n ==> forall|i: int| 0 <= i < j ==> taken@[i],
                best < n ==> forall|i: int|
                    0 <= i < j && !taken@[i] && i != best ==> index_above(c@, best as int, i),
            decreases n - j,
        {
            if !taken[j] && (best == n || c[j] > c[best]) {
                best = j;
            }
            j = j + 1;
        }
        assert(best < n) by {
            let f = choose|f: int| 0 <= f < n && !#[trigger] listed(r@, f);
            assert(!taken@[f]);
        }
        let ghost old_r = r@;
        taken.set(best, true);
        r.push(best);
        assert(r@[old_r.len() as int] == best);
        assert forall|j: int| 0 <= j < n implies (taken@[j] <==> #[trigger] listed(r@, j)) by {
            if listed(r@, j) && j != best {
                let x = choose|x: int| 0 <= x < r@.len() && r@[x] as int == j;
                assert(old_r[x] as int == j);
            }
            if listed(old_r, j) {
                let x = choose|x: int| 0 <= x < old_r.len() && old_r[x] as int == j;
                assert(r@[x] as int == j);
            }
        }
    }
    assert forall|j: int| 0 <= j < n && !listed(r@, j) implies !taken@[j] by {}
    r
}

/// `n` distinct positions below `n` list every one of them.
pub proof fn lemma_full_listing(r: Seq<usize>, n: int)
    requires
        r.len() == n,
        forall|x: int| 0 <= x < r.len() ==> (r[x] as int) < n,
        forall|x: int, y: int| 0 <= x < y < r.len() ==> r[x] != r[y],
    ensures
        forall|j: int| 0 <= j < n ==> #[trigger] listed(r, j),
{
    let t = r.map_values(|u: usize| u as int);
    assert(t.no_duplicates());
    t.unique_seq_to_set();
    vstd::set_lib::lemma_int_range(0, n);
    let full = vstd::set_lib::set_int_range(0, n);
    assert(t.to_set().subset_of(full)) by {
        assert forall|j: int| t.to_set().contains(j) implies full.contains(j) by {
            let x = choose|x: int| 0 <= x < t.len() && t[x] == j;
        }
    }
    vstd::set_lib::lemma_len_subset(t.to_set(), full);
    vstd::set_lib::lemma_subset_equality(t.to_set(), full);
    assert forall|j: int| 0 <= j < n implies #[trigger] listed(r, j) by {
        assert(full.contains(j));
        assert(t.to_set().contains(j));
        let x = choose|x: int| 0 <= x < t.len() && t[x] == j;
        assert(r[x] as int == j);
    }
}

/// Fewer than `n` distinct positions leave one of `0..n` out.
proof fn lemma_free_position(r: Seq<usize>, n: int)
    requires
        0 <= n,
        r.len() < n,
        forall|x: int, y: int| 0 <= x < y < r.len() ==> r[x] != r[y],
    ensures
        exists|j: int| 0 <= j < n && !#[trigger] listed(r, j),
{
    if forall|j: int| 0 <= j < n ==> #[trigger] listed(r, j) {
        let s = Set::new(|j: int| 0 <= j < n);
        let t = r.map_values(|u: usize| u as int);
        assert(t.no_duplicates());
        t.unique_seq_to_set();
        assert(s =~= vstd::set_lib::set_int_range(0, n));
        vstd::set_lib::lemma_int_range(0, n);
        assert forall|j: int| s.contains(j) implies t.to_set().contains(j) by {
            assert(listed(r, j));
            let x = choose|x: int| 0 <= x < r.len() && r[x] as int == j;
            assert(t[x] == j);
        }
        assert(s.subset_of(t.to_set()));
        vstd::set_lib::lemma_len_subset(s, t.to_set());
    }
}

} // verus!
