//! Per-user statistics over the plays of one user in one year.

use vstd::prelude::*;
use crate::play::{counted_ms, rows_view, PlayRow, RowView};
use crate::span::{is_longest_span, longest_span};
use crate::time::{day_number, day_of, hour_number, hour_of, is_weekend, is_weekend_day};

verus! {

/// The largest gap between two plays of one listening session: six minutes.
pub const SESSION_GAP_MS: i64 = 360_000;

/// The most plays a statistics call takes, so that every sum of durations
/// fits in 64 bits.
pub const MAX_PLAYS: usize = 2_147_483_648;

pub open spec fn play_times(plays: Seq<RowView>) -> Seq<i64> {
    plays.map_values(|p: RowView| p.played_at)
}

/// Milliseconds rounded to the nearest minute, halves rounded up.
pub open spec fn nearest_minute(ms: int) -> int {
    (ms + 30_000) / 60_000
}

/// The number of plays on UTC day `d`.
pub open spec fn day_count(plays: Seq<RowView>, d: int) -> nat
    decreases plays.len(),
{
    if plays.len() == 0 {
        0
    } else {
        day_count(plays.drop_last(), d) + if day_of(plays.last().played_at as int) == d {
            1nat
        } else {
            0nat
        }
    }
}

/// The position of the first play on UTC day `d` (meaningful when there is one).
pub open spec fn first_play_on(plays: Seq<RowView>, d: int) -> int
    decreases plays.len(),
{
    if plays.len() == 0 {
        0
    } else if day_count(plays.drop_last(), d) > 0 {
        first_play_on(plays.drop_last(), d)
    } else {
        plays.len() - 1
    }
}

/// The counted duration of the plays on UTC day `d`.
pub open spec fn day_duration(plays: Seq<RowView>, d: int) -> int
    decreases plays.len(),
{
    if plays.len() == 0 {
        0
    } else {
        day_duration(plays.drop_last(), d) + if day_of(plays.last().played_at as int) == d {
            counted_ms(plays.last())
        } else {
            0
        }
    }
}

/// The number of plays in hour `h` (UTC) of their day.
pub open spec fn hour_count(plays: Seq<RowView>, h: int) -> nat
    decreases plays.len(),
{
    if plays.len() == 0 {
        0
    } else {
        hour_count(plays.drop_last(), h) + if hour_of(plays.last().played_at as int) == h {
            1nat
        } else {
            0nat
        }
    }
}

/// Plays and counted listening time on one UTC day.
pub struct DayActivity {
    pub day: i64,
    pub plays: u64,
    pub duration_ms: i64,
}

pub open spec fn total_day_plays(acts: Seq<DayActivity>) -> int
    decreases acts.len(),
{
    if acts.len() == 0 {
        0
    } else {
        total_day_plays(acts.drop_last()) + acts.last().plays
    }
}

proof fn lemma_total_day_plays_update(acts: Seq<DayActivity>, g: int, a: DayActivity)
    requires
        0 <= g < acts.len(),
    ensures
        total_day_plays(acts.update(g, a)) == total_day_plays(acts) - acts[g].plays + a.plays,
    decreases acts.len(),
{
    if g < acts.len() - 1 {
        assert(acts.update(g, a).drop_last() =~= acts.drop_last().update(g, a));
        lemma_total_day_plays_update(acts.drop_last(), g, a);
    } else {
        assert(acts.update(g, a).drop_last() =~= acts.drop_last());
    }
}

/// The days on which plays happened, each once and in order of their first
/// play, with the number of plays and the counted listening time of each.
pub open spec fn is_daily_activity(plays: Seq<RowView>, acts: Seq<DayActivity>) -> bool {
    &&& forall|i: int, j: int| 0 <= i < j < acts.len() ==> acts[i].day != acts[j].day
    &&& forall|i: int, j: int|
        0 <= i < j < acts.len() ==> first_play_on(plays, acts[i].day as int) < first_play_on(
            plays,
            acts[j].day as int,
        )
    &&& forall|i: int|
        0 <= i < acts.len() ==> {
            &&& #[trigger] acts[i].plays == day_count(plays, acts[i].day as int)
            &&& acts[i].duration_ms == day_duration(plays, acts[i].day as int)
            &&& acts[i].plays > 0
        }
    &&& forall|k: int|
        0 <= k < plays.len() ==> exists|i: int|
            0 <= i < acts.len() && acts[i].day as int == day_of(#[trigger] plays[k].played_at as int)
}

/// The length of the longest run of consecutive days in `days` (duplicates
/// allowed, any order): 0 for no days, otherwise one more than the longest
/// span of days joined by steps of at most one day.
pub fn calculate_longest_streak(days: &Vec<i64>) -> (r: u64)
    ensures
        days@.len() == 0 ==> r == 0,
        days@.len() > 0 ==> exists|s: int|
            is_longest_span(days@, 1, s) && r == (if s < u64::MAX {
                s + 1
            } else {
                u64::MAX as int
            }),
{
    let s = longest_span(days, 1);
    if days.len() == 0 {
        0
    } else if s < u64::MAX {
        s + 1
    } else {
        s
    }
}

/// The longest listening session in milliseconds: the largest span between
/// two plays joined by plays no more than six minutes apart.
pub fn longest_session_ms(plays: &Vec<PlayRow>) -> (r: u64)
    ensures
        is_longest_span(play_times(rows_view(plays@)), SESSION_GAP_MS as int, r as int),
{
    let mut times: Vec<i64> = Vec::new();
    let mut i: usize = 0;
    while i < plays.len()
        invariant
            i <= plays@.len(),
            times@ == play_times(rows_view(plays@)).take(i as int),
        decreases plays@.len() - i,
    {
        times.push(plays[i].played_at);
        i = i + 1;
        assert(times@ =~= play_times(rows_view(plays@)).take(i as int));
    }
    assert(times@ =~= play_times(rows_view(plays@)));
    longest_span(&times, SESSION_GAP_MS)
}

pub fn round_to_minutes(ms: u64) -> (r: u64)
    ensures
        r == nearest_minute(ms as int),
{
    let q = ms / 60_000;
    let rem = ms % 60_000;
    if rem >= 30_000 {
        q + 1
    } else {
        q
    }
}

/// Plays per hour of the day (UTC), 24 buckets.
pub fn hourly_distribution(plays: &Vec<PlayRow>) -> (r: Vec<u64>)
    ensures
        r@.len() == 24,
        forall|h: int| 0 <= h < 24 ==> #[trigger] r@[h] == hour_count(rows_view(plays@), h),
{
    let mut r: Vec<u64> = vec![0u64; 24];
    let mut i: usize = 0;
    while i < plays.len()
        invariant
            i <= plays@.len(),
            r@.len() == 24,
            forall|h: int| 0 <= h < 24 ==> #[trigger] r@[h] == hour_count(rows_view(plays@).take(i as int), h),
            forall|h: int| 0 <= h < 24 ==> #[trigger] r@[h] <= i,
        decreases plays@.len() - i,
    {
        assert(rows_view(plays@).take(i + 1).drop_last() =~= rows_view(plays@).take(i as int));
        let h = hour_number(plays[i].played_at) as usize;
        r.set(h, r[h] + 1);
        i = i + 1;
    }
    assert(rows_view(plays@).take(i as int) =~= rows_view(plays@));
    r
}

/// The hour with the most plays, the earliest hour among equals.
pub fn top_hour(dist: &Vec<u64>) -> (r: u8)
    requires
        dist@.len() == 24,
    ensures
        r < 24,
        forall|h: int| 0 <= h < 24 ==> dist@[h] <= dist@[r as int],
        forall|h: int| 0 <= h < r ==> dist@[h] < dist@[r as int],
{
    let mut best: usize = 0;
    let mut h: usize = 1;
    while h < 24
        invariant
            dist@.len() == 24,
            1 <= h <= 24,
            best < h,
            forall|k: int| 0 <= k < h ==> dist@[k] <= dist@[best as int],
            forall|k: int| 0 <= k < best ==> dist@[k] < dist@[best as int],
        decreases 24 - h,
    {
        if dist[h] > dist[best] {
            best = h;
        }
        h = h + 1;
    }
    best as u8
}

/// Plays and listening time per UTC day, each active day once.
pub fn daily_activity(plays: &Vec<PlayRow>) -> (r: Vec<DayActivity>)
    requires
        plays@.len() <= MAX_PLAYS,
    ensures
        is_daily_activity(rows_view(plays@), r@),
        total_day_plays(r@) == plays@.len(),
{
    let mut r: Vec<DayActivity> = Vec::new();
    let mut k: usize = 0;
    while k < plays.len()
        invariant
            k <= plays@.len() <= MAX_PLAYS,
            forall|i: int, j: int| 0 <= i < j < r@.len() ==> r@[i].day != r@[j].day,
            forall|i: int, j: int|
                0 <= i < j < r@.len() ==> first_play_on(rows_view(plays@).take(k as int), r@[i].day as int)
                    < first_play_on(rows_view(plays@).take(k as int), r@[j].day as int),
            forall|i: int|
                0 <= i < r@.len() ==> first_play_on(rows_view(plays@).take(k as int), #[trigger] r@[i].day as int) < k,
            forall|i: int|
                0 <= i < r@.len() ==> {
                    &&& #[trigger] r@[i].plays == day_count(rows_view(plays@).take(k as int), r@[i].day as int)
                    &&& r@[i].duration_ms == day_duration(rows_view(plays@).take(k as int), r@[i].day as int)
                    &&& r@[i].plays > 0
                    &&& r@[i].plays <= k
                    &&& -(k as int) * 2147483648 <= r@[i].duration_ms <= (k as int) * 2147483648
                },
            forall|m: int|
                0 <= m < k ==> exists|i: int|
                    0 <= i < r@.len() && r@[i].day as int == day_of(
                        #[trigger] rows_view(plays@)[m].played_at as int,
                    ),
            forall|e: int|
                day_count(rows_view(plays@).take(k as int), e) > 0 ==> exists|i: int|
                    0 <= i < r@.len() && r@[i].day == e,
            total_day_plays(r@) == k,
        decreases plays@.len() - k,
    {
        let ghost before = rows_view(plays@).take(k as int);
        let ghost after = rows_view(plays@).take(k + 1);
        assert(after.drop_last() =~= before);
        let d = day_number(plays[k].played_at);
        let ms = plays[k].counted_duration_ms();
        let mut g: usize = 0;
        while g < r.len() && r[g].day != d
            invariant
                g <= r@.len(),
                forall|i: int| 0 <= i < g ==> r@[i].day != d,
            decreases r@.len() - g,
        {
            g = g + 1;
        }
        assert forall|e: int| e != d implies day_count(after, e) == day_count(before, e)
            && day_duration(after, e) == day_duration(before, e) by {}
        let ghost old_r = r@;
        if g < r.len() {
            let a = DayActivity { day: d, plays: r[g].plays + 1, duration_ms: r[g].duration_ms + ms };
            proof {
                lemma_total_day_plays_update(r@, g as int, a);
            }
            r.set(g, a);
        } else {
            assert(day_count(before, d as int) == 0);
            assert(day_duration(before, d as int) == 0) by {
                lemma_no_count_no_duration(before, d as int);
            }
            let a = DayActivity { day: d, plays: 1, duration_ms: ms };
            assert(r@.push(a).drop_last() =~= r@);
            r.push(a);
        }
        assert(g < r@.len() && r@[g as int].day == d);
        assert(forall|i: int| 0 <= i < old_r.len() ==> r@[i].day == old_r[i].day);
        assert forall|i: int| 0 <= i < r@.len() implies {
            &&& #[trigger] r@[i].plays == day_count(after, r@[i].day as int)
            &&& r@[i].duration_ms == day_duration(after, r@[i].day as int)
            &&& r@[i].plays > 0
            &&& r@[i].plays <= k + 1
            &&& -((k + 1) as int) * 2147483648 <= r@[i].duration_ms <= ((k + 1) as int) * 2147483648
        } by {
            if i != g {
                assert(r@[i] == old_r[i]);
                assert(old_r[i].plays == day_count(before, old_r[i].day as int));
            } else if g < old_r.len() {
                assert(old_r[i].plays == day_count(before, old_r[i].day as int));
            }
        }
        assert forall|e: int| day_count(after, e) > 0 implies exists|i: int|
            0 <= i < r@.len() && r@[i].day == e by {
            if e != d {
                let i = choose|i: int| 0 <= i < old_r.len() && old_r[i].day == e;
                assert(r@[i].day == e);
            }
        }
        assert forall|e: int| day_count(before, e) > 0 implies first_play_on(after, e)
            == first_play_on(before, e) by {}
        assert(day_count(before, d as int) == 0 ==> first_play_on(after, d as int) == k);
        assert forall|i: int| 0 <= i < r@.len() implies first_play_on(after, #[trigger] r@[i].day as int)
            < k + 1 by {
            if i < old_r.len() {
                assert(old_r[i].plays > 0);
                assert(r@[i].day == old_r[i].day);
            }
        }
        assert forall|a: int, b: int| 0 <= a < b < r@.len() implies first_play_on(after, r@[a].day as int)
            < first_play_on(after, r@[b].day as int) by {
            assert(a < old_r.len());
            assert(old_r[a].plays > 0);
            assert(r@[a].day == old_r[a].day);
            if b < old_r.len() {
                assert(old_r[b].plays > 0);
                assert(r@[b].day == old_r[b].day);
            }
        }
        assert forall|m: int| 0 <= m < k + 1 implies exists|i: int|
            0 <= i < r@.len() && r@[i].day as int == day_of(
                #[trigger] rows_view(plays@)[m].played_at as int,
            ) by {
            assert(after[m] == rows_view(plays@)[m]);
            lemma_count_positive(after, m);
        }
        k = k + 1;
    }
    assert(rows_view(plays@).take(k as int) =~= rows_view(plays@));
    r
}

proof fn lemma_no_count_no_duration(plays: Seq<RowView>, d: int)
    requires
        day_count(plays, d) == 0,
    ensures
        day_duration(plays, d) == 0,
    decreases plays.len(),
{
    if plays.len() > 0 {
        lemma_no_count_no_duration(plays.drop_last(), d);
    }
}

proof fn lemma_count_positive(plays: Seq<RowView>, m: int)
    requires
        0 <= m < plays.len(),
    ensures
        day_count(plays, day_of(plays[m].played_at as int)) > 0,
    decreases plays.len(),
{
    if m < plays.len() - 1 {
        lemma_count_positive(plays.drop_last(), m);
    }
}

/// The counted duration of all plays.
pub open spec fn total_counted(plays: Seq<RowView>) -> int
    decreases plays.len(),
{
    if plays.len() == 0 {
        0
    } else {
        total_counted(plays.drop_last()) + counted_ms(plays.last())
    }
}

/// The counted duration of the plays on weekend days (`weekend`) or on
/// weekdays (`!weekend`).
pub open spec fn part_counted(plays: Seq<RowView>, weekend: bool) -> int
    decreases plays.len(),
{
    if plays.len() == 0 {
        0
    } else {
        part_counted(plays.drop_last(), weekend) + if is_weekend_day(
            day_of(plays.last().played_at as int),
        ) == weekend {
            counted_ms(plays.last())
        } else {
            0
        }
    }
}

/// How many of the active days are weekend days (`weekend`) or weekdays.
pub open spec fn part_days(acts: Seq<DayActivity>, weekend: bool) -> nat
    decreases acts.len(),
{
    if acts.len() == 0 {
        0
    } else {
        part_days(acts.drop_last(), weekend) + if is_weekend_day(acts.last().day as int) == weekend {
            1nat
        } else {
            0nat
        }
    }
}

/// The UTC day of every play.
pub open spec fn play_days(plays: Seq<RowView>) -> Seq<i64> {
    plays.map_values(|p: RowView| day_of(p.played_at as int) as i64)
}

/// Total counted duration, and the counted durations on weekdays and on
/// weekend days.
pub fn counted_totals(plays: &Vec<PlayRow>) -> (r: (i64, i64, i64))
    requires
        plays@.len() <= MAX_PLAYS,
    ensures
        r.0 == total_counted(rows_view(plays@)),
        -(plays@.len() as int) * 2147483648 <= r.0 <= (plays@.len() as int) * 2147483648,
        r.1 == part_counted(rows_view(plays@), false),
        r.2 == part_counted(rows_view(plays@), true),
{
    let mut total: i64 = 0;
    let mut weekday: i64 = 0;
    let mut weekend: i64 = 0;
    let mut i: usize = 0;
    while i < plays.len()
        invariant
            i <= plays@.len() <= MAX_PLAYS,
            total == total_counted(rows_view(plays@).take(i as int)),
            weekday == part_counted(rows_view(plays@).take(i as int), false),
            weekend == part_counted(rows_view(plays@).take(i as int), true),
            -(i as int) * 2147483648 <= total <= (i as int) * 2147483648,
            -(i as int) * 2147483648 <= weekday <= (i as int) * 2147483648,
            -(i as int) * 2147483648 <= weekend <= (i as int) * 2147483648,
        decreases plays@.len() - i,
    {
        assert(rows_view(plays@).take(i + 1).drop_last() =~= rows_view(plays@).take(i as int));
        let ms = plays[i].counted_duration_ms();
        total = total + ms;
        if is_weekend(day_number(plays[i].played_at)) {
            weekend = weekend + ms;
        } else {
            weekday = weekday + ms;
        }
        i = i + 1;
    }
    assert(rows_view(plays@).take(i as int) =~= rows_view(plays@));
    (total, weekday, weekend)
}

/// How many active days are weekdays and how many are weekend days.
pub fn day_kinds(acts: &Vec<DayActivity>) -> (r: (u64, u64))
    ensures
        r.0 == part_days(acts@, false),
        r.1 == part_days(acts@, true),
{
    let mut weekday: u64 = 0;
    let mut weekend: u64 = 0;
    let mut i: usize = 0;
    while i < acts.len()
        invariant
            i <= acts@.len(),
            weekday == part_days(acts@.take(i as int), false),
            weekend == part_days(acts@.take(i as int), true),
            weekday + weekend == i,
        decreases acts@.len() - i,
    {
        assert(acts@.take(i + 1).drop_last() =~= acts@.take(i as int));
        if is_weekend(acts[i].day) {
            weekend = weekend + 1;
        } else {
            weekday = weekday + 1;
        }
        i = i + 1;
    }
    assert(acts@.take(i as int) =~= acts@);
    (weekday, weekend)
}

/// The UTC day of every play, in play order.
pub fn days_of_plays(plays: &Vec<PlayRow>) -> (r: Vec<i64>)
    ensures
        r@ == play_days(rows_view(plays@)),
{
    let mut r: Vec<i64> = Vec::new();
    let mut i: usize = 0;
    while i < plays.len()
        invariant
            i <= plays@.len(),
            r@ == play_days(rows_view(plays@)).take(i as int),
        decreases plays@.len() - i,
    {
        r.push(day_number(plays[i].played_at));
        i = i + 1;
        assert(r@ =~= play_days(rows_view(plays@)).take(i as int));
    }
    assert(r@ =~= play_days(rows_view(plays@)));
    r
}

/// The integer quotient rounded toward zero.
pub open spec fn quotient_toward_zero(a: int, b: int) -> int {
    if a >= 0 {
        a / b
    } else {
        -((-a) / b)
    }
}

pub fn average_toward_zero(total: i64, count: u64) -> (r: i64)
    requires
        count > 0,
        total > i64::MIN,
    ensures
        r == quotient_toward_zero(total as int, count as int),
{
    let c = count as i128;
    let t = total as i128;
    let q = if t >= 0 {
        t / c
    } else {
        -((-t) / c)
    };
    assert(-(i64::MAX as int) <= q <= i64::MAX) by (nonlinear_arith)
        requires
            c >= 1,
            -(i64::MAX as int) <= t <= i64::MAX,
            t >= 0 ==> q == (t as int) / (c as int),
            t < 0 ==> q == -((-(t as int)) / (c as int)),
    ;
    q as i64
}

} // verus!
