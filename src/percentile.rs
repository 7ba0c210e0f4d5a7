//! Continuous-interpolation percentiles over per-user values, and the rank
//! of one user among all.

use vstd::prelude::*;
use crate::span::sort_ascending;

verus! {

pub open spec fn ascending(v: Seq<i64>) -> bool {
    forall|i: int, j: int| 0 <= i <= j < v.len() ==> v[i] <= v[j]
}

/// A hundred times the value of the piecewise-linear interpolation of `v`
/// at position `t / 100` (for `0 <= t <= 100 * (v.len() - 1)`).
pub open spec fn interp_x100(v: Seq<i64>, t: int) -> int {
    let lo = t / 100;
    let rem = t % 100;
    if rem == 0 {
        100 * v[lo]
    } else {
        100 * v[lo] + rem * (v[lo + 1] - v[lo])
    }
}

/// A hundred times the continuous percentile `p` (0 to 100) of the ascending
/// values `v`: the interpolation at position `p / 100 * (len - 1)`.
pub open spec fn percentile_x100(v: Seq<i64>, p: int) -> int {
    interp_x100(v, p * (v.len() - 1))
}

/// A hundredth of `x`, rounded to the nearest integer, halves away from zero.
pub open spec fn round_hundredths(x: int) -> int {
    if x >= 0 {
        (x + 50) / 100
    } else {
        -((-x + 50) / 100)
    }
}

proof fn lemma_interp_below_next(v: Seq<i64>, t: int)
    requires
        ascending(v),
        v.len() >= 1,
        0 <= t <= 100 * (v.len() - 1),
        t % 100 != 0,
    ensures
        t / 100 + 1 < v.len(),
        interp_x100(v, t) <= 100 * v[t / 100 + 1],
        interp_x100(v, t) >= 100 * v[t / 100],
{
    let lo = t / 100;
    let rem = t % 100;
    assert(t == 100 * lo + rem && 0 < rem < 100) by (nonlinear_arith)
        requires
            lo == t / 100,
            rem == t % 100,
            rem != 0,
            t >= 0,
    ;
    assert(lo + 1 < v.len()) by (nonlinear_arith)
        requires
            t == 100 * lo + rem,
            0 < rem < 100,
            t <= 100 * (v.len() - 1),
    ;
    let d = v[lo + 1] - v[lo];
    assert(d >= 0);
    assert(rem * d <= 100 * d && rem * d >= 0) by (nonlinear_arith)
        requires
            0 < rem < 100,
            d >= 0,
    ;
}

proof fn lemma_interp_monotone(v: Seq<i64>, t: int, u: int)
    requires
        ascending(v),
        v.len() >= 1,
        0 <= t <= u <= 100 * (v.len() - 1),
    ensures
        interp_x100(v, t) <= interp_x100(v, u),
{
    let lt = t / 100;
    let lu = u / 100;
    let rt = t % 100;
    let ru = u % 100;
    assert(t == 100 * lt + rt && 0 <= rt < 100 && u == 100 * lu + ru && 0 <= ru < 100) by (
    nonlinear_arith)
        requires
            lt == t / 100,
            rt == t % 100,
            lu == u / 100,
            ru == u % 100,
            t >= 0,
            u >= 0,
    ;
    assert(lt <= lu) by (nonlinear_arith)
        requires
            t == 100 * lt + rt,
            u == 100 * lu + ru,
            0 <= rt < 100,
            0 <= ru < 100,
            t <= u,
    ;
    assert(lu < v.len()) by (nonlinear_arith)
        requires
            u == 100 * lu + ru,
            0 <= ru < 100,
            u <= 100 * (v.len() - 1),
    ;
    if rt != 0 {
        lemma_interp_below_next(v, t);
    }
    if ru != 0 {
        lemma_interp_below_next(v, u);
    }
    if lt == lu {
        if rt != 0 && ru != 0 {
            let d = v[lt + 1] - v[lt];
            assert(rt * d <= ru * d) by (nonlinear_arith)
                requires
                    rt <= ru,
                    d >= 0,
            ;
        }
    } else {
        assert(v[lt + 1] <= v[lu]);
    }
}

/// The percentiles of ascending values grow with the percentile.
pub proof fn lemma_percentile_monotone(v: Seq<i64>, p: int, q: int)
    requires
        ascending(v),
        v.len() >= 1,
        0 <= p <= q <= 100,
    ensures
        percentile_x100(v, p) <= percentile_x100(v, q),
        round_hundredths(percentile_x100(v, p)) <= round_hundredths(percentile_x100(v, q)),
{
    let m = v.len() - 1;
    assert(0 <= p * m <= q * m <= 100 * m) by (nonlinear_arith)
        requires
            0 <= p <= q <= 100,
            m >= 0,
    ;
    lemma_interp_monotone(v, p * m, q * m);
    let a = percentile_x100(v, p);
    let b = percentile_x100(v, q);
    assert(round_hundredths(a) <= round_hundredths(b)) by (nonlinear_arith)
        requires
            a <= b,
    {
        if a >= 0 {
        } else if b >= 0 {
        } else {
            assert((-b + 50) / 100 <= (-a + 50) / 100) by (nonlinear_arith)
                requires
                    -b + 50 <= -a + 50,
            ;
        }
    }
}

/// A hundred times the continuous percentile `p` of ascending values.
pub fn percentile_cont_x100(v: &Vec<i64>, p: u64) -> (r: i128)
    requires
        ascending(v@),
        v@.len() >= 1,
        p <= 100,
    ensures
        r == percentile_x100(v@, p as int),
{
    let m = (v.len() - 1) as u128;
    assert((p as int) * (m as int) <= 100 * 18446744073709551615) by (nonlinear_arith)
        requires
            p <= 100,
            m <= 18446744073709551615,
    ;
    let t = (p as u128) * m;
    let lo = (t / 100) as usize;
    let rem = (t % 100) as i128;
    assert(0 <= t <= 100 * m) by (nonlinear_arith)
        requires
            t == p * m,
            p <= 100,
    ;
    assert(lo < v@.len()) by (nonlinear_arith)
        requires
            lo == t / 100,
            t <= 100 * m,
            m == v@.len() - 1,
    ;
    if rem == 0 {
        100 * (v[lo] as i128)
    } else {
        proof {
            lemma_interp_below_next(v@, t as int);
        }
        let a = v[lo] as i128;
        let b = v[lo + 1] as i128;
        100 * a + rem * (b - a)
    }
}

/// The percentile table of `values` with each entry rounded to a whole value.
pub fn whole_percentile_table(values: &Vec<i64>, last: u64) -> (r: Vec<(u64, i128)>)
    requires
        last <= 100,
    ensures
        is_percentile_table(values@, last as int, true, r@),
        forall|k: int, l: int| 0 <= k <= l < r@.len() ==> r@[k].1 <= r@[l].1,
{
    let t = percentile_table(values, last);
    let ghost s = choose|s: Seq<i64>|
        s.to_multiset() == values@.to_multiset() && ascending(s) && t@.len() == last / 5 + 1
            && forall|k: int|
            0 <= k < t@.len() ==> #[trigger] t@[k].0 == 5 * k && t@[k].1 == percentile_x100(s, 5 * k);
    let mut r: Vec<(u64, i128)> = Vec::new();
    let mut i: usize = 0;
    while i < t.len()
        invariant
            last <= 100,
            i <= t@.len(),
            r@.len() == i,
            values@.len() > 0 ==> s.to_multiset() == values@.to_multiset() && ascending(s) && t@.len() == last / 5 + 1
                && forall|k: int|
                0 <= k < t@.len() ==> #[trigger] t@[k].0 == 5 * k && t@[k].1 == percentile_x100(s, 5 * k),
            values@.len() == 0 ==> t@.len() == 0,
            forall|k: int| 0 <= k < i ==> #[trigger] r@[k].0 == t@[k].0 && r@[k].1 == round_hundredths(t@[k].1 as int),
        decreases t@.len() - i,
    {
        proof {
            s.to_multiset_ensures();
            values@.to_multiset_ensures();
            assert(t@[i as int].0 == 5 * i);
            assert(5 * (i as int) <= 100) by (nonlinear_arith)
                requires
                    i < last / 5 + 1,
                    last <= 100,
            ;
            lemma_percentile_bounds(s, 5 * i as int);
        }
        let x = round_hundredths_exec(t[i].1);
        r.push((t[i].0, x));
        i = i + 1;
    }
    assert forall|k: int, l: int| 0 <= k <= l < r@.len() implies r@[k].1 <= r@[l].1 by {
        assert(r@[k].0 == t@[k].0 && r@[l].0 == t@[l].0);
        assert(t@[k].1 <= t@[l].1);
        let a = t@[k].1 as int;
        let b = t@[l].1 as int;
        assert(round_hundredths(a) <= round_hundredths(b)) by (nonlinear_arith)
            requires
                a <= b,
        {
            if a >= 0 {
            } else if b >= 0 {
            } else {
                assert((-b + 50) / 100 <= (-a + 50) / 100) by (nonlinear_arith)
                    requires
                        -b + 50 <= -a + 50,
                ;
            }
        }
    }
    if values.len() > 0 {
        assert forall|k: int| 0 <= k < r@.len() implies #[trigger] r@[k].0 == 5 * k && r@[k].1 == round_hundredths(percentile_x100(s, 5 * k)) by {
            assert(r@[k].0 == t@[k].0);
        }
    }
    r
}

pub fn round_hundredths_exec(x: i128) -> (r: i128)
    requires
        -(i128::MAX as int) + 100 <= x <= i128::MAX - 100,
    ensures
        r == round_hundredths(x as int),
{
    if x >= 0 {
        (x + 50) / 100
    } else {
        -((-x + 50) / 100)
    }
}

/// `r` is the table of continuous percentiles 0, 5, 10, ... up to `last` of
/// `values`, each a hundred times the exact value (rounded to a whole value
/// when `whole`); empty without values.
pub open spec fn is_percentile_table(values: Seq<i64>, last: int, whole: bool, r: Seq<(u64, i128)>) -> bool {
    &&& values.len() == 0 ==> r.len() == 0
    &&& values.len() > 0 ==> exists|s: Seq<i64>|
        s.to_multiset() == values.to_multiset() && ascending(s) && r.len() == last / 5 + 1
            && forall|k: int|
            0 <= k < r.len() ==> #[trigger] r[k].0 == 5 * k && r[k].1 == if whole {
                round_hundredths(percentile_x100(s, 5 * k))
            } else {
                percentile_x100(s, 5 * k)
            }
}

/// The table of continuous percentiles 0, 5, 10, ... up to `last` of some
/// values, each a hundred times the exact value: empty without values.
/// Later percentiles are never smaller.
pub fn percentile_table(values: &Vec<i64>, last: u64) -> (r: Vec<(u64, i128)>)
    requires
        last <= 100,
    ensures
        is_percentile_table(values@, last as int, false, r@),
        forall|k: int, l: int| 0 <= k <= l < r@.len() ==> r@[k].1 <= r@[l].1,
{
    if values.len() == 0 {
        return Vec::new();
    }
    let mut s = values.clone();
    assert(s@ =~= values@);
    sort_ascending(&mut s);
    proof {
        s@.to_multiset_ensures();
        values@.to_multiset_ensures();
    }
    let mut r: Vec<(u64, i128)> = Vec::new();
    let mut p: u64 = 0;
    while p <= last
        invariant
            ascending(s@),
            s@.len() >= 1,
            last <= 100,
            p % 5 == 0,
            p <= last + 5,
            r@.len() == p / 5,
            forall|k: int|
                0 <= k < r@.len() ==> #[trigger] r@[k].0 == 5 * k && r@[k].1 == percentile_x100(
                    s@,
                    5 * k,
                ),
        decreases last + 5 - p,
    {
        let x = percentile_cont_x100(&s, p);
        r.push((p, x));
        p = p + 5;
    }
    assert(r@.len() == last / 5 + 1);
    assert forall|k: int, l: int| 0 <= k <= l < r@.len() implies r@[k].1 <= r@[l].1 by {
        assert(r@[k].0 == 5 * k);
        assert(r@[l].0 == 5 * l);
        lemma_percentile_monotone(s@, 5 * k, 5 * l);
        lemma_percentile_bounds(s@, 5 * k);
        lemma_percentile_bounds(s@, 5 * l);
    }
    r
}

proof fn lemma_percentile_bounds(v: Seq<i64>, p: int)
    requires
        ascending(v),
        v.len() >= 1,
        0 <= p <= 100,
    ensures
        100 * v[0] <= percentile_x100(v, p) <= 100 * v[v.len() - 1],
{
    lemma_percentile_monotone(v, 0, p);
    lemma_percentile_monotone(v, p, 100);
    let m = v.len() - 1;
    assert(0 * m == 0);
    assert((100 * m) / 100 == m && (100 * m) % 100 == 0) by (nonlinear_arith)
        requires
            m >= 0,
    ;
}

/// How many of `values` are strictly below `x`.
pub open spec fn count_below(values: Seq<i64>, x: int) -> nat
    decreases values.len(),
{
    if values.len() == 0 {
        0
    } else {
        count_below(values.drop_last(), x) + if (values.last() as int) < x {
            1nat
        } else {
            0nat
        }
    }
}

/// The percentile rank of `mine` among `values`, the measures of a
/// population of `population` users: the share, in whole percent rounded
/// down, of values strictly below it; `None` for an empty population.
pub fn percentile_rank(values: &Vec<i64>, mine: i64, population: u64) -> (r: Option<u64>)
    requires
        values@.len() <= population,
    ensures
        population == 0 <==> r is None,
        r matches Some(x) ==> x == (100 * count_below(values@, mine as int) as int) / (population as int),
{
    if population == 0 {
        return None;
    }
    let mut below: u64 = 0;
    let mut i: usize = 0;
    while i < values.len()
        invariant
            i <= values@.len(),
            below == count_below(values@.take(i as int), mine as int),
            below <= i,
            values@.len() <= population,
        decreases values@.len() - i,
    {
        assert(values@.take(i + 1).drop_last() =~= values@.take(i as int));
        if values[i] < mine {
            below = below + 1;
        }
        i = i + 1;
    }
    assert(values@.take(i as int) =~= values@);
    let wide = (100 * (below as u128)) / (population as u128);
    assert(wide <= 100) by (nonlinear_arith)
        requires
            wide == (100 * below as int) / (population as int),
            below <= population,
            population > 0,
    ;
    Some(wide as u64)
}

} // verus!
