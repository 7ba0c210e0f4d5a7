//! Keeping the derived views fresh: the bounded retry policy for a view
//! refresh, and the queue of users whose refresh gave up.

use vstd::prelude::*;
use vstd::arithmetic::power2::{lemma2_to64, lemma_pow2_strictly_increases, lemma_pow2_unfold, pow2};

verus! {

/// How many times a refresh is attempted before it gives up.
pub const MAX_REFRESH_ATTEMPTS: u32 = 10;

/// The wait before the second attempt; it doubles before each later one.
pub const BASE_DELAY_MS: u64 = 100;

/// The wait before the attempt that follows `failed` failed attempts
/// (`failed >= 1`): the base delay doubled `failed - 1` times.
pub open spec fn backoff_ms(failed: nat) -> nat {
    BASE_DELAY_MS as nat * pow2((failed - 1) as nat)
}

/// The next step of a refresh.
pub enum RefreshAction {
    /// Wait this long, then attempt the refresh again.
    Retry { delay_ms: u64 },
    /// Stop: `true` when the views are fresh, `false` when the refresh gave
    /// up and the user goes to the retry queue.
    Finish(bool),
}

/// What to do after `attempts` attempts, the last of which succeeded or not.
pub fn next_refresh_action(attempts: u32, succeeded: bool) -> (r: RefreshAction)
    requires
        1 <= attempts <= MAX_REFRESH_ATTEMPTS,
    ensures
        succeeded ==> r == RefreshAction::Finish(true),
        !succeeded && attempts == MAX_REFRESH_ATTEMPTS ==> r == RefreshAction::Finish(false),
        !succeeded && attempts < MAX_REFRESH_ATTEMPTS ==> r == (RefreshAction::Retry {
            delay_ms: backoff_ms(attempts as nat) as u64,
        }),
{
    if succeeded {
        return RefreshAction::Finish(true);
    }
    if attempts >= MAX_REFRESH_ATTEMPTS {
        return RefreshAction::Finish(false);
    }
    let mut delay: u64 = BASE_DELAY_MS;
    let mut k: u32 = 1;
    proof {
        lemma2_to64();
    }
    while k < attempts
        invariant
            1 <= k <= attempts < MAX_REFRESH_ATTEMPTS,
            delay == backoff_ms(k as nat),
            pow2(8) == 256,
        decreases attempts - k,
    {
        proof {
            if k - 1 < 8 {
                lemma_pow2_strictly_increases((k - 1) as nat, 8);
            }
            lemma_pow2_unfold(k as nat);
        }
        delay = delay * 2;
        k = k + 1;
    }
    RefreshAction::Retry { delay_ms: delay }
}

/// A user whose view refresh gave up.
pub struct RetryEntry {
    pub user_did: String,
    pub retry_count: u64,
    /// When the last attempt was made, in milliseconds since the epoch.
    pub last_attempt_ms: i64,
}

pub struct RetryView {
    pub user_did: Seq<char>,
    pub retry_count: u64,
    pub last_attempt_ms: i64,
}

impl View for RetryEntry {
    type V = RetryView;

    open spec fn view(&self) -> RetryView {
        RetryView {
            user_did: self.user_did@,
            retry_count: self.retry_count,
            last_attempt_ms: self.last_attempt_ms,
        }
    }
}

pub open spec fn entry_views(v: Seq<RetryEntry>) -> Seq<RetryView> {
    v.map_values(|e: RetryEntry| e@)
}

/// The users whose refresh gave up, each at most once.
pub struct RetryQueue {
    pub entries: Vec<RetryEntry>,
}

impl View for RetryQueue {
    type V = Seq<RetryView>;

    open spec fn view(&self) -> Seq<RetryView> {
        entry_views(self.entries@)
    }
}

/// Relies on `slice::sort_by_key`: the same entries, oldest attempt first.
#[verifier::external_body]
fn sort_by_last_attempt(v: &mut Vec<RetryEntry>)
    ensures
        entry_views(final(v)@).to_multiset() == entry_views(old(v)@).to_multiset(),
        forall|i: int, j: int|
            0 <= i <= j < final(v)@.len() ==> final(v)@[i].last_attempt_ms
                <= final(v)@[j].last_attempt_ms,
{
    v.sort_by_key(|e| e.last_attempt_ms)
}

impl RetryQueue {
    pub open spec fn wf(&self) -> bool {
        forall|i: int, j: int| 0 <= i < j < self@.len() ==> self@[i].user_did != self@[j].user_did
    }

    pub fn new() -> (r: RetryQueue)
        ensures
            r.wf(),
            r@.len() == 0,
    {
        let r = RetryQueue { entries: Vec::new() };
        assert(r@ =~= Seq::<RetryView>::empty());
        r
    }

    fn position(&self, user_did: &String) -> (r: Option<usize>)
        ensures
            r matches Some(i) ==> i < self@.len() && self@[i as int].user_did == user_did@,
            r is None ==> forall|i: int| 0 <= i < self@.len() ==> self@[i].user_did != user_did@,
    {
        let mut i: usize = 0;
        while i < self.entries.len()
            invariant
                i <= self@.len(),
                forall|j: int| 0 <= j < i ==> self@[j].user_did != user_did@,
            decreases self@.len() - i,
        {
            if self.entries[i].user_did.eq(user_did) {
                return Some(i);
            }
            i = i + 1;
        }
        None
    }

    /// Records a failed refresh for `user_did` at `now_ms`: a new user
    /// enters with no retries counted, a queued one has its count raised by
    /// one (saturating) and its attempt time updated.
    pub fn enqueue(&mut self, user_did: &String, now_ms: i64)
        requires
            old(self).wf(),
        ensures
            final(self).wf(),
            (exists|i: int| 0 <= i < old(self)@.len() && old(self)@[i].user_did == user_did@) ==> exists|i: int|
                0 <= i < old(self)@.len() && old(self)@[i].user_did == user_did@ && final(self)@
                    == old(self)@.update(
                    i,
                    RetryView {
                        user_did: user_did@,
                        retry_count: if old(self)@[i].retry_count < u64::MAX {
                            (old(self)@[i].retry_count + 1) as u64
                        } else {
                            u64::MAX
                        },
                        last_attempt_ms: now_ms,
                    },
                ),
            !(exists|i: int| 0 <= i < old(self)@.len() && old(self)@[i].user_did == user_did@)
                ==> final(self)@ == old(self)@.push(
                RetryView { user_did: user_did@, retry_count: 0, last_attempt_ms: now_ms },
            ),
    {
        match self.position(user_did) {
            Some(i) => {
                let c = self.entries[i].retry_count;
                let e = RetryEntry {
                    user_did: user_did.clone(),
                    retry_count: if c < u64::MAX {
                        c + 1
                    } else {
                        c
                    },
                    last_attempt_ms: now_ms,
                };
                let ghost before = self@;
                self.entries.set(i, e);
                assert(self@ =~= before.update(i as int, e@));
            },
            None => {
                let e = RetryEntry { user_did: user_did.clone(), retry_count: 0, last_attempt_ms: now_ms };
                let ghost before = self@;
                self.entries.push(e);
                assert(self@ =~= before.push(e@));
            },
        }
    }

    /// Takes `user_did` out of the queue after a successful refresh.
    pub fn remove(&mut self, user_did: &String)
        requires
            old(self).wf(),
        ensures
            final(self).wf(),
            forall|i: int| 0 <= i < final(self)@.len() ==> final(self)@[i].user_did != user_did@,
            forall|i: int|
                0 <= i < old(self)@.len() && old(self)@[i].user_did == user_did@ ==> final(self)@
                    == old(self)@.remove(i),
            (forall|i: int| 0 <= i < old(self)@.len() ==> old(self)@[i].user_did != user_did@)
                ==> final(self)@ == old(self)@,
    {
        match self.position(user_did) {
            Some(i) => {
                let ghost before = self@;
                self.entries.remove(i);
                assert(self@ =~= before.remove(i as int));
            },
            None => {},
        }
    }

    /// Empties the queue.
    pub fn clear(&mut self)
        ensures
            final(self).wf(),
            final(self)@.len() == 0,
    {
        self.entries.clear();
        assert(self@ =~= Seq::<RetryView>::empty());
    }

    /// The queued users, oldest attempt first.
    pub fn list(&self) -> (r: Vec<RetryEntry>)
        ensures
            entry_views(r@).to_multiset() == self@.to_multiset(),
            forall|i: int, j: int|
                0 <= i <= j < r@.len() ==> r@[i].last_attempt_ms <= r@[j].last_attempt_ms,
    {
        let mut r: Vec<RetryEntry> = Vec::new();
        let mut i: usize = 0;
        while i < self.entries.len()
            invariant
                i <= self@.len(),
                entry_views(r@) == self@.take(i as int),
                r@.len() == i,
            decreases self@.len() - i,
        {
            let e = &self.entries[i];
            r.push(RetryEntry {
                user_did: e.user_did.clone(),
                retry_count: e.retry_count,
                last_attempt_ms: e.last_attempt_ms,
            });
            i = i + 1;
            assert(entry_views(r@) =~= self@.take(i as int));
        }
        assert(self@.take(i as int) =~= self@);
        sort_by_last_attempt(&mut r);
        r
    }
}

} // verus!
