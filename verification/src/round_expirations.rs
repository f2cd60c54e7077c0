//! Round-indexed expiry set: items scheduled at a consensus round, drained
//! once round progress passes their validity window.

use vstd::prelude::*;

verus! {

use crate::Round;

/// Items of entries whose round is strictly below `cutoff`, in entry order.
pub open spec fn expired_items<I>(entries: Seq<(Round, I)>, cutoff: Round) -> Seq<I>
    decreases entries.len(),
{
    if entries.len() == 0 {
        Seq::empty()
    } else {
        let pre = expired_items(entries.drop_last(), cutoff);
        if entries.last().0 < cutoff {
            pre.push(entries.last().1)
        } else {
            pre
        }
    }
}

/// Entries whose round is at least `cutoff`, in entry order.
pub open spec fn live_entries<I>(entries: Seq<(Round, I)>, cutoff: Round) -> Seq<(Round, I)>
    decreases entries.len(),
{
    if entries.len() == 0 {
        Seq::empty()
    } else {
        let pre = live_entries(entries.drop_last(), cutoff);
        if entries.last().0 >= cutoff {
            pre.push(entries.last())
        } else {
            pre
        }
    }
}

/// Holds (expiry round, item) entries; `expire` removes and returns every
/// item whose round has fallen strictly below a cutoff round.
pub struct RoundExpirations<I> {
    pub expiries: Vec<(Round, I)>,
}

impl<I> RoundExpirations<I> {
    pub open spec fn entries(self) -> Seq<(Round, I)> {
        self.expiries@
    }

    pub fn new() -> (r: Self)
        ensures
            r.entries() == Seq::<(Round, I)>::empty(),
    {
        RoundExpirations { expiries: Vec::new() }
    }

    pub fn add_item(&mut self, item: I, expiry_round: Round)
        ensures
            final(self).entries() == old(self).entries().push((expiry_round, item)),
    {
        self.expiries.push((expiry_round, item));
    }

    /// Removes and returns the items of every entry with round strictly less
    /// than `round`; entries with round at least `round` stay, in order.
    /// The result keeps entry order, and entries scheduled as duplicates
    /// come back as distinct items rather than collapsing into a set.
    pub fn expire(&mut self, round: Round) -> (expired: Vec<I>)
        ensures
            expired@ == expired_items(old(self).entries(), round),
            final(self).entries() == live_entries(old(self).entries(), round),
    {
        let ghost orig = self.expiries@;
        assert(orig.take(orig.len() as int) =~= orig);
        let mut rev: Vec<(Round, I)> = Vec::new();
        while self.expiries.len() > 0
            invariant
                self.expiries@.len() + rev@.len() == orig.len(),
                self.expiries@ == orig.take(self.expiries@.len() as int),
                forall|j: int|
                    0 <= j < rev@.len() ==> rev@[j] == orig[orig.len() - 1 - j],
            decreases self.expiries@.len(),
        {
            match self.expiries.pop() {
                Some(e) => {
                    rev.push(e);
                    assert(orig.take(self.expiries@.len() as int) =~= self.expiries@);
                },
                None => {},
            }
        }
        let mut expired: Vec<I> = Vec::new();
        while rev.len() > 0
            invariant
                rev@.len() <= orig.len(),
                forall|j: int|
                    0 <= j < rev@.len() ==> rev@[j] == orig[orig.len() - 1 - j],
                expired@ == expired_items(orig.take(orig.len() - rev@.len()), round),
                self.expiries@ == live_entries(orig.take(orig.len() - rev@.len()), round),
            decreases rev@.len(),
        {
            let ghost done = orig.take(orig.len() - rev@.len());
            match rev.pop() {
                Some(e) => {
                    proof {
                        assert(e == orig[orig.len() - rev@.len() - 1]);
                        let done2 = orig.take(orig.len() - rev@.len());
                        assert(done2 =~= done.push(e));
                        assert(done2.drop_last() =~= done);
                    }
                    if e.0 < round {
                        expired.push(e.1);
                    } else {
                        self.expiries.push(e);
                    }
                },
                None => {},
            }
        }
        proof {
            assert(orig.take(orig.len() as int) =~= orig);
        }
        expired
    }
}

} // verus!
