//! The longest stretch of a set of points in which no two neighbours lie
//! more than a given gap apart: listening sessions over instants, streaks
//! over days.

use vstd::prelude::*;

verus! {

/// Relies on `slice::sort_unstable`: the same values, in ascending order.
#[verifier::external_body]
pub(crate) fn sort_ascending(v: &mut Vec<i64>)
    ensures
        final(v)@.to_multiset() == old(v)@.to_multiset(),
        forall|i: int, j: int| 0 <= i <= j < final(v)@.len() ==> final(v)@[i] <= final(v)@[j],
{
    v.sort_unstable()
}

pub open spec fn occurs(s: Seq<i64>, x: int) -> bool {
    exists|j: int| 0 <= j < s.len() && s[j] as int == x
}

/// Some point of `s` lies in `(p, p + gap]`.
pub open spec fn covered(s: Seq<i64>, gap: int, p: int) -> bool {
    exists|y: int| p < y <= p + gap && #[trigger] occurs(s, y)
}

/// `a` and `b` are points of `s`, `a <= b`, and walking from `a` to `b` one
/// never has to cross more than `gap` without meeting a point of `s`.
pub open spec fn linked(s: Seq<i64>, gap: int, a: int, b: int) -> bool {
    &&& occurs(s, a)
    &&& occurs(s, b)
    &&& a <= b
    &&& forall|p: int| a <= p < b ==> #[trigger] covered(s, gap, p)
}

/// `r` is the largest `b - a` over the linked pairs of `s` (0 when `s` is empty).
pub open spec fn is_longest_span(s: Seq<i64>, gap: int, r: int) -> bool {
    &&& (s.len() == 0 ==> r == 0)
    &&& (s.len() > 0 ==> exists|a: int, b: int| linked(s, gap, a, b) && b - a == r)
    &&& forall|a: int, b: int| linked(s, gap, a, b) ==> b - a <= r
}

proof fn lemma_same_points(s: Seq<i64>, t: Seq<i64>, gap: int)
    requires
        s.to_multiset() == t.to_multiset(),
    ensures
        forall|x: int| occurs(s, x) == occurs(t, x),
        forall|p: int| covered(s, gap, p) == covered(t, gap, p),
        forall|a: int, b: int| linked(s, gap, a, b) == linked(t, gap, a, b),
{
    s.to_multiset_ensures();
    t.to_multiset_ensures();
    assert forall|x: int| occurs(s, x) == occurs(t, x) by {
        if occurs(s, x) {
            let j = choose|j: int| 0 <= j < s.len() && s[j] as int == x;
            assert(s.contains(s[j]));
            assert(s.to_multiset().count(s[j]) > 0);
            assert(t.to_multiset().count(s[j]) > 0);
            assert(t.contains(s[j]));
            let k = choose|k: int| 0 <= k < t.len() && t[k] == s[j];
        }
        if occurs(t, x) {
            let j = choose|j: int| 0 <= j < t.len() && t[j] as int == x;
            assert(t.contains(t[j]));
            assert(t.to_multiset().count(t[j]) > 0);
            assert(s.to_multiset().count(t[j]) > 0);
            assert(s.contains(t[j]));
            let k = choose|k: int| 0 <= k < s.len() && s[k] == t[j];
        }
    }
    assert forall|p: int| covered(s, gap, p) == covered(t, gap, p) by {
        if covered(s, gap, p) {
            let y = choose|y: int| p < y <= p + gap && #[trigger] occurs(s, y);
            assert(occurs(t, y));
        }
        if covered(t, gap, p) {
            let y = choose|y: int| p < y <= p + gap && #[trigger] occurs(t, y);
            assert(occurs(s, y));
        }
    }
    assert forall|a: int, b: int| linked(s, gap, a, b) == linked(t, gap, a, b) by {
        if linked(s, gap, a, b) {
            assert forall|p: int| a <= p < b implies #[trigger] covered(t, gap, p) by {
                assert(covered(s, gap, p));
            }
        }
        if linked(t, gap, a, b) {
            assert forall|p: int| a <= p < b implies #[trigger] covered(s, gap, p) by {
                assert(covered(t, gap, p));
            }
        }
    }
}

/// No link crosses a stretch `[start - gap, start)` free of points.
proof fn lemma_no_link_across(s: Seq<i64>, gap: int, start: int, a: int, b: int)
    requires
        gap >= 0,
        linked(s, gap, a, b),
        start <= b,
        forall|y: int| start - gap <= y < start ==> !occurs(s, y),
    ensures
        start <= a,
{
    if a >= start {
    } else if a >= start - gap {
        assert(!occurs(s, a));
    } else {
        let p = start - gap - 1;
        assert(covered(s, gap, p));
        let y = choose|y: int| p < y <= p + gap && #[trigger] occurs(s, y);
    }
}

/// The longest linked span of a sorted, non-empty sequence.
fn longest_span_sorted(d: &Vec<i64>, gap: i64) -> (r: u64)
    requires
        gap >= 0,
        d@.len() > 0,
        forall|i: int, j: int| 0 <= i <= j < d@.len() ==> d@[i] <= d@[j],
    ensures
        is_longest_span(d@, gap as int, r as int),
{
    let ghost s = d@;
    let ghost g = gap as int;
    let n = d.len();
    let mut start: i64 = d[0];
    let mut last: i64 = d[0];
    let mut best: u64 = 0;
    let ghost mut best_a: int = d[0] as int;
    let ghost mut best_b: int = d[0] as int;
    assert(occurs(s, d[0] as int));
    assert forall|y: int| start - g <= y < start implies !occurs(s, y) by {
        if occurs(s, y) {
            let j = choose|j: int| 0 <= j < s.len() && s[j] as int == y;
        }
    }
    let mut i: usize = 1;
    while i < n
        invariant
            s == d@,
            g == gap,
            gap >= 0,
            n == s.len(),
            1 <= i <= n,
            forall|i: int, j: int| 0 <= i <= j < s.len() ==> s[i] <= s[j],
            last == s[i - 1],
            linked(s, g, start as int, last as int),
            forall|y: int| start - g <= y < start ==> !occurs(s, y),
            linked(s, g, best_a, best_b),
            best_b - best_a == best,
            last - start <= best,
            forall|a: int, b: int| linked(s, g, a, b) && b <= last ==> b - a <= best,
        decreases n - i,
    {
        let x = d[i];
        assert(occurs(s, x as int));
        // No point of `s` lies strictly between `last` and `x`.
        assert forall|y: int| last < y < x implies !occurs(s, y) by {
            if occurs(s, y) {
                let j = choose|j: int| 0 <= j < s.len() && s[j] as int == y;
                if j < i {
                    assert(s[j] <= s[i - 1]);
                } else {
                    assert(s[i as int] <= s[j]);
                }
            }
        }
        if (x as i128) - (last as i128) > gap as i128 {
            assert forall|y: int| x - g <= y < x implies !occurs(s, y) by {
                if occurs(s, y) {
                    let j = choose|j: int| 0 <= j < s.len() && s[j] as int == y;
                    if j < i {
                        assert(s[j] <= s[i - 1]);
                    } else {
                        assert(s[i as int] <= s[j]);
                    }
                }
            }
            start = x;
        } else {
            assert forall|p: int| start <= p < x implies #[trigger] covered(s, g, p) by {
                if p >= last {
                    assert(occurs(s, x as int));
                }
            }
        }
        let ghost old_last = last;
        let ghost old_best = best;
        last = x;
        let span = ((x as i128) - (start as i128)) as u64;
        if span > best {
            best = span;
            proof {
                best_a = start as int;
                best_b = x as int;
            }
        }
        assert forall|a: int, b: int| linked(s, g, a, b) && b <= last implies b - a <= best by {
            if b > old_last {
                assert(b == x) by {
                    if b < x {
                        assert(!occurs(s, b));
                    }
                }
                if a < start {
                    lemma_no_link_across(s, g, start as int, a, b);
                }
            }
        }
        i = i + 1;
    }
    assert forall|a: int, b: int| linked(s, g, a, b) implies b - a <= best by {
        let j = choose|j: int| 0 <= j < s.len() && s[j] as int == b;
        assert(s[j] <= s[n - 1]);
    }
    best
}

/// The largest `b - a` over pairs of points of `v` joined by a chain of
/// points of `v` with no step longer than `gap`; 0 when `v` is empty.
pub fn longest_span(v: &Vec<i64>, gap: i64) -> (r: u64)
    requires
        gap >= 0,
    ensures
        is_longest_span(v@, gap as int, r as int),
{
    let mut d = v.clone();
    assert(d@ =~= v@);
    sort_ascending(&mut d);
    proof {
        lemma_same_points(d@, v@, gap as int);
    }
    if d.len() == 0 {
        proof {
            v@.to_multiset_ensures();
            d@.to_multiset_ensures();
        }
        return 0;
    }
    let r = longest_span_sorted(&d, gap);
    proof {
        v@.to_multiset_ensures();
        d@.to_multiset_ensures();
        let a = choose|a: int, b: int| linked(d@, gap as int, a, b) && b - a == r;
    }
    r
}

} // verus!
