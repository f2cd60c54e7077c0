//! Absolute-time timeout queue: (expiry timestamp, digest) pairs appended in
//! call order and drained as a prefix once their expiry has passed.
//!
//! Draining takes only the front prefix of expired entries. That is exact
//! when the queue is sorted by expiry, which holds whenever every entry is
//! scheduled with the same timeout duration: insertion order then equals
//! expiry order (see `lemma_schedule_keeps_sorted`).

use vstd::prelude::*;

verus! {

use std::collections::VecDeque;
use crate::Digest;

broadcast use vstd::std_specs::vecdeque::group_vec_dequeue_axioms;

/// Largest accepted timeout duration in milliseconds; keeps the expiry
/// computation within `i64`.
pub const MAX_TIMEOUT_MS: usize = 1_000_000_000;

/// Bound on the wall clock in milliseconds since the Unix epoch, from
/// chrono's documented date range (years -262144 to 262142).
pub const CLOCK_BOUND_MS: i64 = 9_400_000_000_000_000;

/// Relies on `chrono::Utc::now` and `DateTime::timestamp_millis`: the current
/// wall-clock time in non-leap milliseconds since the Unix epoch. chrono's
/// dates span the years -262144 to 262142, so the millisecond count stays
/// within `CLOCK_BOUND_MS`.
#[verifier::external_body]
fn now_millis() -> (now: i64)
    ensures
        -CLOCK_BOUND_MS <= now <= CLOCK_BOUND_MS,
{
    chrono::Utc::now().timestamp_millis()
}

/// Length of the longest front prefix of `q` whose expiry is at most `now`.
pub open spec fn expired_prefix_len(q: Seq<(i64, Digest)>, now: i64) -> nat
    decreases q.len(),
{
    if q.len() == 0 || q[0].0 > now {
        0
    } else {
        1 + expired_prefix_len(q.skip(1), now)
    }
}

/// The digests carried by the first `n` entries of `q`, in order.
pub open spec fn prefix_keys(q: Seq<(i64, Digest)>, n: nat) -> Seq<Digest> {
    Seq::new(n, |i: int| q[i].1)
}

/// Entries in non-decreasing expiry order.
pub open spec fn sorted_by_expiry(q: Seq<(i64, Digest)>) -> bool {
    forall|i: int, j: int| 0 <= i <= j < q.len() ==> q[i].0 <= q[j].0
}

/// `e` carries `digest` and expires `timeout_ms` past an in-range clock
/// reading (namely `e.0 - timeout_ms`).
pub open spec fn scheduled_entry(e: (i64, Digest), digest: Digest, timeout_ms: usize) -> bool {
    &&& e.1 == digest
    &&& -CLOCK_BOUND_MS <= e.0 - timeout_ms <= CLOCK_BOUND_MS
}

/// FIFO queue of (absolute expiry in milliseconds, digest) entries.
pub struct DigestTimeouts {
    pub timeouts: VecDeque<(i64, Digest)>,
}

impl DigestTimeouts {
    pub open spec fn entries(self) -> Seq<(i64, Digest)> {
        self.timeouts@
    }

    pub fn new() -> (r: Self)
        ensures
            r.entries() == Seq::<(i64, Digest)>::empty(),
    {
        DigestTimeouts { timeouts: VecDeque::new() }
    }

    /// Appends an entry expiring at `now + timeout_ms`.
    pub fn schedule_at(&mut self, now: i64, digest: Digest, timeout_ms: usize)
        requires
            -CLOCK_BOUND_MS <= now <= CLOCK_BOUND_MS,
            timeout_ms <= MAX_TIMEOUT_MS,
        ensures
            final(self).entries() == old(self).entries().push(
                (((now + timeout_ms) as i64), digest),
            ),
    {
        let expiry: i64 = now + timeout_ms as i64;
        self.timeouts.push_back((expiry, digest));
    }

    /// Computes the expiry from the wall clock and appends the entry: the
    /// digest lands at the back of the queue with an expiry `timeout_ms`
    /// past an in-range clock reading (`scheduled_entry`).
    pub fn add_digest(&mut self, digest: Digest, timeout_ms: usize)
        requires
            timeout_ms <= MAX_TIMEOUT_MS,
        ensures
            exists|e: i64| #![trigger old(self).entries().push((e, digest))]
                scheduled_entry((e, digest), digest, timeout_ms)
                    && final(self).entries() == old(self).entries().push((e, digest)),
    {
        let now = now_millis();
        self.schedule_at(now, digest, timeout_ms);
        proof {
            let e: i64 = ((now + timeout_ms) as i64);
            assert(scheduled_entry((e, digest), digest, timeout_ms)
                && self.entries() == old(self).entries().push((e, digest)));
        }
    }

    /// Removes the front prefix of entries whose expiry is at most `now` and
    /// returns their digests in order; later entries stay, in order.
    pub fn drain_expired_at(&mut self, now: i64) -> (expired: Vec<Digest>)
        ensures
            expired@ == prefix_keys(old(self).entries(), expired_prefix_len(
                old(self).entries(),
                now,
            )),
            final(self).entries() == old(self).entries().skip(
                expired_prefix_len(old(self).entries(), now) as int,
            ),
    {
        let ghost orig = self.timeouts@;
        let mut expired: Vec<Digest> = Vec::new();
        proof {
            assert(orig.skip(0) =~= orig);
        }
        while self.timeouts.len() > 0 && self.timeouts[0].0 <= now
            invariant
                expired@.len() <= orig.len(),
                self.timeouts@ == orig.skip(expired@.len() as int),
                expired@ == prefix_keys(orig, expired@.len() as nat),
                forall|i: int| 0 <= i < expired@.len() ==> #[trigger] orig[i].0 <= now,
            decreases self.timeouts@.len(),
        {
            let ghost n = expired@.len() as int;
            match self.timeouts.pop_front() {
                Some(e) => {
                    expired.push(e.1);
                    proof {
                        assert(orig[n] == e);
                        assert(self.timeouts@ =~= orig.skip(n + 1));
                        assert(expired@ =~= prefix_keys(orig, (n + 1) as nat));
                    }
                },
                None => {},
            }
        }
        proof {
            let p = expired@.len() as int;
            assert(expired_prefix_len(orig, now) == p) by {
                lemma_expired_prefix_agrees(orig, now, p as nat);
            }
        }
        expired
    }

    /// Reads the wall clock and drains every entry whose expiry has passed:
    /// a front prefix of the queue, returned in order.
    pub fn expire(&mut self) -> (expired: Vec<Digest>)
        ensures
            exists|now: i64|
                {
                    &&& -CLOCK_BOUND_MS <= now <= CLOCK_BOUND_MS
                    &&& expired@ == prefix_keys(old(self).entries(), expired_prefix_len(
                        old(self).entries(),
                        now,
                    ))
                    &&& final(self).entries() == old(self).entries().skip(
                        expired_prefix_len(old(self).entries(), now) as int,
                    )
                },
    {
        let now = now_millis();
        let expired = self.drain_expired_at(now);
        proof {
            let n = now;
            assert(expired@ == prefix_keys(old(self).entries(), expired_prefix_len(
                old(self).entries(),
                n,
            )));
        }
        expired
    }
}

/// The expired prefix never exceeds the queue.
pub proof fn lemma_expired_prefix_len_bound(q: Seq<(i64, Digest)>, now: i64)
    ensures
        expired_prefix_len(q, now) <= q.len(),
    decreases q.len(),
{
    if !(q.len() == 0 || q[0].0 > now) {
        lemma_expired_prefix_len_bound(q.skip(1), now);
    }
}

/// A prefix of length `p` whose entries have all expired, followed either by
/// the queue's end or an unexpired entry, is exactly the expired prefix.
proof fn lemma_expired_prefix_agrees(q: Seq<(i64, Digest)>, now: i64, p: nat)
    requires
        p <= q.len(),
        forall|i: int| 0 <= i < p ==> #[trigger] q[i].0 <= now,
        p < q.len() ==> q[p as int].0 > now,
    ensures
        expired_prefix_len(q, now) == p,
    decreases q.len(),
{
    if q.len() == 0 || q[0].0 > now {
    } else {
        assert(q[0].0 <= now);
        assert forall|i: int| 0 <= i < p - 1 implies #[trigger] q.skip(1)[i].0 <= now by {
            assert(q.skip(1)[i] == q[i + 1]);
        }
        if p < q.len() && p >= 1 {
            assert(q.skip(1)[p - 1] == q[p as int]);
        }
        lemma_expired_prefix_agrees(q.skip(1), now, (p - 1) as nat);
    }
}

/// Scheduling with a common duration keeps the queue sorted by expiry: a new
/// entry expiring no earlier than the current back preserves the order.
pub proof fn lemma_schedule_keeps_sorted(q: Seq<(i64, Digest)>, expiry: i64, digest: Digest)
    requires
        sorted_by_expiry(q),
        q.len() > 0 ==> q.last().0 <= expiry,
    ensures
        sorted_by_expiry(q.push((expiry, digest))),
{
    let q2 = q.push((expiry, digest));
    assert forall|i: int, j: int| 0 <= i <= j < q2.len() implies q2[i].0 <= q2[j].0 by {
        if j < q.len() {
        } else if i < q.len() {
            assert(q[i].0 <= q.last().0);
        }
    }
}

/// Timeout-queue ordering: on a queue sorted by expiry, draining at a time
/// past the last expiry returns every digest in insertion order and empties
/// the queue; draining before the first expiry returns nothing and leaves the
/// queue unchanged.
pub proof fn lemma_fifo_drain_ordered(q: Seq<(i64, Digest)>, now: i64)
    requires
        sorted_by_expiry(q),
    ensures
        (q.len() > 0 && q.last().0 <= now) ==> expired_prefix_len(q, now) == q.len(),
        (q.len() > 0 && q[0].0 > now) ==> expired_prefix_len(q, now) == 0,
{
    if q.len() > 0 && q.last().0 <= now {
        assert forall|i: int| 0 <= i < q.len() implies #[trigger] q[i].0 <= now by {
            assert(q[i].0 <= q.last().0);
        }
        lemma_expired_prefix_agrees(q, now, q.len());
    }
}

} // verus!
