//! Per-digest request state with peer rotation and a bounded retry budget,
//! and the coordinator that drives requests from timer expiries and incoming
//! responses.

use vstd::prelude::*;

verus! {

use std::collections::HashMap;
use tokio::sync::oneshot::Sender;
use crate::{Digest, PeerId};
use crate::timeouts::{
    DigestTimeouts,
    CLOCK_BOUND_MS,
    MAX_TIMEOUT_MS,
    expired_prefix_len,
    lemma_expired_prefix_len_bound,
    prefix_keys,
    scheduled_entry,
};
use crate::types::{BatchRequestError, BatchResult, SignedTransaction};
use vstd::arithmetic::div_mod::{
    lemma_add_mod_noop,
    lemma_fundamental_div_mod,
    lemma_mod_bound,
    lemma_mod_multiples_vanish,
    lemma_small_mod,
};

broadcast use vstd::std_specs::hash::group_hash_axioms;

/// Retry budget for a batch request.
pub const DEFAULT_MAX_NUM_RETRY: usize = 5;

#[verifier::external_type_specification]
#[verifier::external_body]
#[verifier::reject_recursive_types(T)]
pub struct ExOneshotSender<T>(Sender<T>);

/// Relies on `tokio::sync::oneshot::Sender::send`: consumes the sender and
/// hands the value to the receiving half, which gets it if it is still
/// alive; if the receiver was already dropped the value comes back unchanged
/// as the error.
pub assume_specification<T>[ Sender::<T>::send ](s: Sender<T>, t: T) -> (r: Result<(), T>)
    ensures
        r matches Err(v) ==> v == t,
;

/// `k` peer ids read cyclically from `signers` starting at `start`.
pub open spec fn rotation_window(signers: Seq<PeerId>, start: int, k: int) -> Seq<PeerId> {
    Seq::new(k as nat, |i: int| signers[(start + i) % (signers.len() as int)])
}

/// The rotation cursor after `t` calls of width `k` starting from `start`.
pub open spec fn cursor_after(len: int, start: int, k: int, t: int) -> int {
    (start + t * k) % len
}

/// State of one outstanding digest request: the ordered candidate peers, the
/// rotation cursor, the retry budget, and the single-use result sink.
pub struct BatchRequesterState {
    pub signers: Vec<PeerId>,
    pub next_index: usize,
    pub ret_tx: Sender<BatchResult>,
    pub num_retries: usize,
    pub max_num_retry: usize,
}

impl BatchRequesterState {
    pub open spec fn inv(self) -> bool {
        &&& self.signers@.len() > 0
        &&& self.next_index < self.signers@.len()
        &&& self.num_retries <= self.max_num_retry
    }

    pub open spec fn can_retry(self) -> bool {
        self.num_retries < self.max_num_retry
    }

    /// The state after one successful call of width `k`: one retry consumed,
    /// cursor advanced by `k` modulo the signer count.
    pub open spec fn advanced(self, k: int) -> Self {
        BatchRequesterState {
            signers: self.signers,
            next_index: (((self.next_index + k) % (self.signers@.len() as int))) as usize,
            ret_tx: self.ret_tx,
            num_retries: (self.num_retries + 1) as usize,
            max_num_retry: self.max_num_retry,
        }
    }

    pub fn new(signers: Vec<PeerId>, ret_tx: Sender<BatchResult>) -> (r: Self)
        requires
            signers@.len() > 0,
        ensures
            r.inv(),
            r.signers == signers,
            r.next_index == 0,
            r.ret_tx == ret_tx,
            r.num_retries == 0,
            r.max_num_retry == DEFAULT_MAX_NUM_RETRY,
    {
        BatchRequesterState {
            signers,
            next_index: 0,
            ret_tx,
            num_retries: 0,
            max_num_retry: DEFAULT_MAX_NUM_RETRY,
        }
    }

    /// If retries remain, consumes one and returns exactly `num_peers` ids
    /// read cyclically from the signers starting at the cursor, advancing
    /// the cursor by `num_peers` modulo the signer count. Once the budget is
    /// exhausted, returns nothing and never mutates again.
    pub fn next_request_peers(&mut self, num_peers: usize) -> (r: Option<Vec<PeerId>>)
        requires
            old(self).inv(),
            old(self).next_index + num_peers <= usize::MAX,
        ensures
            final(self).inv(),
            old(self).can_retry() ==> (r matches Some(peers) && peers@ == rotation_window(
                old(self).signers@,
                old(self).next_index as int,
                num_peers as int,
            ) && *final(self) == old(self).advanced(num_peers as int)),
            !old(self).can_retry() ==> (r is None && *final(self) == *old(self)),
    {
        if self.num_retries < self.max_num_retry {
            self.num_retries = self.num_retries + 1;
            let len = self.signers.len();
            let mut ret: Vec<PeerId> = Vec::new();
            let mut i: usize = 0;
            while i < num_peers
                invariant
                    i <= num_peers,
                    len == self.signers@.len(),
                    len > 0,
                    self.next_index < len,
                    self.next_index + num_peers <= usize::MAX,
                    ret@.len() == i,
                    forall|j: int|
                        0 <= j < i ==> ret@[j] == self.signers@[
                            (self.next_index + j) % (len as int)
                        ],
                decreases num_peers - i,
            {
                let idx = (self.next_index + i) % len;
                ret.push(self.signers[idx]);
                i = i + 1;
            }
            proof {
                assert(ret@ =~= rotation_window(
                    self.signers@,
                    self.next_index as int,
                    num_peers as int,
                ));
            }
            self.next_index = (self.next_index + num_peers) % len;
            Some(ret)
        } else {
            None
        }
    }

    /// Consumes the state and delivers the outcome through the result sink.
    /// Delivery is fallible: if the receiving half was already dropped, the
    /// undelivered outcome comes back as the error, for the caller to log
    /// and discard — a lost result must not take the subsystem down.
    pub fn serve_request(
        self,
        _digest: Digest,
        maybe_payload: Option<Vec<SignedTransaction>>,
    ) -> (r: Result<(), BatchResult>)
        ensures
            r matches Err(lost) ==> lost == spec_resolution(maybe_payload),
    {
        let value = resolution_value(maybe_payload);
        self.ret_tx.send(value)
    }
}

/// The outcome owed for a request: the payload on success, the
/// data-unavailable error when the retry budget ran out.
pub open spec fn spec_resolution(maybe_payload: Option<Vec<SignedTransaction>>) -> BatchResult {
    match maybe_payload {
        Some(p) => Ok(p),
        None => Err(BatchRequestError::CouldNotGetData),
    }
}

/// Builds the outcome delivered for a request.
pub fn resolution_value(maybe_payload: Option<Vec<SignedTransaction>>) -> (r: BatchResult)
    ensures
        r == spec_resolution(maybe_payload),
{
    match maybe_payload {
        Some(payload) => Ok(payload),
        None => Err(BatchRequestError::CouldNotGetData),
    }
}

/// Every id in a rotation window is one of the signers; in particular a peer
/// that is not a signer is never asked.
pub proof fn lemma_window_membership(signers: Seq<PeerId>, start: int, k: int, x: PeerId)
    requires
        signers.len() > 0,
        0 <= start,
        0 <= k,
        !signers.contains(x),
    ensures
        !rotation_window(signers, start, k).contains(x),
{
    let w = rotation_window(signers, start, k);
    assert forall|i: int| 0 <= i < w.len() implies w[i] != x by {
        lemma_mod_bound(start + i, signers.len() as int);
        assert(signers[(start + i) % (signers.len() as int)] == w[i]);
        assert(signers.contains(w[i]));
    }
    if w.contains(x) {
        let i = choose|i: int| 0 <= i < w.len() && w[i] == x;
        assert(w[i] != x);
    }
}

/// The call and slot at which the rotation started at `start` with width `k`
/// reaches signer index `j`.
pub open spec fn covering_call(len: int, start: int, k: int, j: int) -> int {
    (((j + len - start) % len)) / k
}

pub open spec fn covering_slot(len: int, start: int, k: int, j: int) -> int {
    (((j + len - start) % len)) % k
}

proof fn lemma_rotation_covers_index(signers: Seq<PeerId>, start: int, k: int, j: int)
    requires
        signers.len() > 0,
        0 <= start < signers.len(),
        k >= 1,
        0 <= j < signers.len(),
    ensures
        0 <= covering_slot(signers.len() as int, start, k, j) < k,
        0 <= covering_call(signers.len() as int, start, k, j),
        k * covering_call(signers.len() as int, start, k, j) < signers.len(),
        rotation_window(
            signers,
            cursor_after(
                signers.len() as int,
                start,
                k,
                covering_call(signers.len() as int, start, k, j),
            ),
            k,
        )[covering_slot(signers.len() as int, start, k, j)] == signers[j],
{
    let len = signers.len() as int;
    let s2 = j + len - start;
    let d = s2 % len;
    lemma_mod_bound(s2, len);
    let t = d / k;
    let i = d % k;
    lemma_fundamental_div_mod(d, k);
    lemma_mod_bound(d, k);
    assert(d == k * t + i);
    assert(0 <= t && k * t < len) by (nonlinear_arith)
        requires
            d == k * t + i,
            0 <= i < k,
            0 <= d < len,
            k >= 1,
    ;
    let c = cursor_after(len, start, k, t);
    lemma_mod_bound(start + t * k, len);
    assert(rotation_window(signers, c, k)[i] == signers[(c + i) % len]);
    assert((c + i) % len == (start + t * k + i) % len) by {
        lemma_add_mod_noop(start + t * k, i, len);
        lemma_add_mod_noop(c, i, len);
        vstd::arithmetic::div_mod::lemma_mod_twice(start + t * k, len);
    }
    assert(start + t * k + i == start + d) by (nonlinear_arith)
        requires
            d == k * t + i,
    ;
    lemma_fundamental_div_mod(s2, len);
    let q = s2 / len;
    assert(start + d == j + len * (1 - q)) by (nonlinear_arith)
        requires
            s2 == len * q + d,
            s2 == j + len - start,
    ;
    lemma_mod_multiples_vanish(1 - q, j, len);
    lemma_small_mod(j as nat, len as nat);
    assert((start + d) % len == j);
}

/// Rotation coverage: from any cursor, `m` consecutive windows of width `k`
/// reach every signer once `m * k` is at least the signer count; the window
/// of call `covering_call` holds signer `j` at slot `covering_slot`. (With a
/// budget of `b` retries left, `m` ranges over at most `b` calls.)
#[verifier::rlimit(100)]
pub proof fn lemma_rotation_coverage(signers: Seq<PeerId>, start: int, k: int, m: int)
    requires
        signers.len() > 0,
        0 <= start < signers.len(),
        k >= 1,
        m >= 1,
        m * k >= signers.len(),
    ensures
        forall|j: int| #![trigger covering_call(signers.len() as int, start, k, j)]
            0 <= j < signers.len() ==> {
                let t = covering_call(signers.len() as int, start, k, j);
                let i = covering_slot(signers.len() as int, start, k, j);
                &&& 0 <= t < m
                &&& 0 <= i < k
                &&& rotation_window(
                    signers,
                    cursor_after(signers.len() as int, start, k, t),
                    k,
                )[i] == signers[j]
            },
{
    let len = signers.len() as int;
    assert forall|j: int| #![trigger covering_call(signers.len() as int, start, k, j)]
        0 <= j < len implies {
        let t = covering_call(len, start, k, j);
        let i = covering_slot(len, start, k, j);
        &&& 0 <= t < m
        &&& 0 <= i < k
        &&& rotation_window(signers, cursor_after(len, start, k, t), k)[i] == signers[j]
    } by {
        lemma_rotation_covers_index(signers, start, k, j);
        let t = covering_call(len, start, k, j);
        assert(t < m) by (nonlinear_arith)
            requires
                k * t < len,
                len <= m * k,
                k >= 1,
                0 <= t,
                m >= 1,
        ;
    }
}

/// The state after `n` further successful calls of width `k`.
pub open spec fn advanced_n(s: BatchRequesterState, k: int, n: nat) -> BatchRequesterState
    decreases n,
{
    if n == 0 {
        s
    } else {
        advanced_n(s, k, (n - 1) as nat).advanced(k)
    }
}

/// Retry budget exhaustion: each successful call consumes one retry, so a
/// state that starts `n` retries short of the budget refuses the call after
/// `n` successful ones — and, by `next_request_peers`'s contract, refusing
/// never mutates, so every later call refuses as well.
pub proof fn lemma_retry_budget_exhaustion(s: BatchRequesterState, k: int, n: nat)
    requires
        s.inv(),
        k >= 0,
        n <= s.max_num_retry - s.num_retries,
    ensures
        advanced_n(s, k, n).inv(),
        advanced_n(s, k, n).num_retries == s.num_retries + n,
        advanced_n(s, k, n).max_num_retry == s.max_num_retry,
        advanced_n(s, k, n).signers == s.signers,
        n == s.max_num_retry - s.num_retries ==> !advanced_n(s, k, n).can_retry(),
    decreases n,
{
    if n > 0 {
        lemma_retry_budget_exhaustion(s, k, (n - 1) as nat);
        let prev = advanced_n(s, k, (n - 1) as nat);
        lemma_mod_bound(prev.next_index + k, prev.signers@.len() as int);
    }
}


/// After `n` successful calls of width `k`, the rotation cursor stands at
/// `cursor_after` of the starting cursor: each call advances it by `k`
/// modulo the signer count, so the windows of successive calls are exactly
/// those `lemma_rotation_coverage` speaks of.
pub proof fn lemma_cursor_advances(s: BatchRequesterState, k: int, n: nat)
    requires
        s.inv(),
        s.signers@.len() <= usize::MAX,
        k >= 0,
    ensures
        advanced_n(s, k, n).signers == s.signers,
        advanced_n(s, k, n).next_index == cursor_after(
            s.signers@.len() as int,
            s.next_index as int,
            k,
            n as int,
        ),
    decreases n,
{
    let len = s.signers@.len() as int;
    let start = s.next_index as int;
    if n == 0 {
        assert((n as int) * k == 0) by (nonlinear_arith)
            requires
                n == 0,
        ;
        lemma_small_mod(s.next_index as nat, s.signers@.len() as nat);
        assert(cursor_after(len, start, k, 0) == start);
    } else {
        lemma_cursor_advances(s, k, (n - 1) as nat);
        let prev = advanced_n(s, k, (n - 1) as nat);
        let c = prev.next_index as int;
        lemma_mod_bound(start + (n - 1) * k, len);
        lemma_mod_bound(c + k, len);
        assert((c + k) % len == (start + (n - 1) * k + k) % len) by {
            lemma_add_mod_noop(start + (n - 1) * k, k, len);
            lemma_add_mod_noop(c, k, len);
            vstd::arithmetic::div_mod::lemma_mod_twice(start + (n - 1) * k, len);
        }
        assert(start + (n - 1) * k + k == start + n * k) by (nonlinear_arith);
        assert(advanced_n(s, k, n) == prev.advanced(k));
        assert(advanced_n(s, k, n).next_index as int == (c + k) % len);
        assert(advanced_n(s, k, n).next_index as int == (start + n * k) % len);
    }
}

/// Pending requests per digest; values carry their own rotation state and
/// result sink.
pub struct BatchRequester {
    pub epoch: u64,
    pub my_peer_id: PeerId,
    pub request_num_peers: usize,
    pub request_timeout_ms: usize,
    pub digest_to_state: HashMap<Digest, BatchRequesterState>,
    pub timeouts: DigestTimeouts,
}

/// The map after the coordinator handles one timer expiry for `d`: a pending
/// digest with retries left advances its rotation state; one out of budget
/// leaves the map (its failure is delivered); an absent digest is ignored.
pub open spec fn expire_step(
    m: Map<Digest, BatchRequesterState>,
    d: Digest,
    k: int,
) -> Map<Digest, BatchRequesterState> {
    if !m.dom().contains(d) {
        m
    } else if m[d].can_retry() {
        m.insert(d, m[d].advanced(k))
    } else {
        m.remove(d)
    }
}

/// The resend issued by that step, if any: the digest with its next rotation
/// window.
pub open spec fn expire_step_resends(
    m: Map<Digest, BatchRequesterState>,
    d: Digest,
    k: int,
) -> Seq<(Digest, Seq<PeerId>)> {
    if m.dom().contains(d) && m[d].can_retry() {
        seq![(d, rotation_window(m[d].signers@, m[d].next_index as int, k))]
    } else {
        Seq::empty()
    }
}

/// The map after handling a sequence of expired digests in order.
pub open spec fn run_expiry(
    m: Map<Digest, BatchRequesterState>,
    ds: Seq<Digest>,
    k: int,
) -> Map<Digest, BatchRequesterState>
    decreases ds.len(),
{
    if ds.len() == 0 {
        m
    } else {
        run_expiry(expire_step(m, ds[0], k), ds.skip(1), k)
    }
}

/// The resends issued while handling a sequence of expired digests in order.
pub open spec fn run_expiry_resends(
    m: Map<Digest, BatchRequesterState>,
    ds: Seq<Digest>,
    k: int,
) -> Seq<(Digest, Seq<PeerId>)>
    decreases ds.len(),
{
    if ds.len() == 0 {
        Seq::empty()
    } else {
        expire_step_resends(m, ds[0], k) + run_expiry_resends(
            expire_step(m, ds[0], k),
            ds.skip(1),
            k,
        )
    }
}

proof fn lemma_run_expiry_snoc(m: Map<Digest, BatchRequesterState>, ds: Seq<Digest>, d: Digest, k: int)
    ensures
        run_expiry(m, ds.push(d), k) == expire_step(run_expiry(m, ds, k), d, k),
        run_expiry_resends(m, ds.push(d), k) == run_expiry_resends(m, ds, k)
            + expire_step_resends(run_expiry(m, ds, k), d, k),
    decreases ds.len(),
{
    let p = ds.push(d);
    if ds.len() == 0 {
        reveal_with_fuel(run_expiry, 3);
        reveal_with_fuel(run_expiry_resends, 3);
        assert(p[0] == d);
        assert(p.skip(1) =~= Seq::<Digest>::empty());
        assert(run_expiry_resends(m, p, k) =~= run_expiry_resends(m, ds, k)
            + expire_step_resends(run_expiry(m, ds, k), d, k));
    } else {
        assert(p[0] == ds[0]);
        assert(p.skip(1) =~= ds.skip(1).push(d));
        let m1 = expire_step(m, ds[0], k);
        lemma_run_expiry_snoc(m1, ds.skip(1), d, k);
        assert(run_expiry_resends(m, p, k) =~= run_expiry_resends(m, ds, k)
            + expire_step_resends(run_expiry(m, ds, k), d, k));
    }
}

impl BatchRequester {
    /// Every pending state is well formed, its rotation arithmetic cannot
    /// overflow, and the configured timeout is accepted by the queue.
    pub open spec fn inv(self) -> bool {
        &&& forall|d: Digest| #[trigger] self.digest_to_state@.dom().contains(d) ==> {
            &&& self.digest_to_state@[d].inv()
            &&& self.digest_to_state@[d].signers@.len() + self.request_num_peers <= usize::MAX
        }
        &&& self.request_timeout_ms <= MAX_TIMEOUT_MS
    }

    pub fn new(
        epoch: u64,
        my_peer_id: PeerId,
        request_num_peers: usize,
        request_timeout_ms: usize,
    ) -> (r: Self)
        requires
            request_timeout_ms <= MAX_TIMEOUT_MS,
        ensures
            r.inv(),
            r.epoch == epoch,
            r.my_peer_id == my_peer_id,
            r.request_num_peers == request_num_peers,
            r.request_timeout_ms == request_timeout_ms,
            r.digest_to_state@ == Map::<Digest, BatchRequesterState>::empty(),
            r.timeouts.entries() == Seq::<(i64, Digest)>::empty(),
    {
        BatchRequester {
            epoch,
            my_peer_id,
            request_num_peers,
            request_timeout_ms,
            digest_to_state: HashMap::new(),
            timeouts: DigestTimeouts::new(),
        }
    }

    /// Starts resolving `digest`: creates the rotation state, consumes the
    /// guaranteed first retry to pick the peers to ask, records the request
    /// as pending and schedules its timeout. Returns the peers the caller
    /// must send the request to; the coordinator itself is never among them.
    pub fn add_request(
        &mut self,
        digest: Digest,
        signers: Vec<PeerId>,
        ret_tx: Sender<BatchResult>,
    ) -> (peers: Vec<PeerId>)
        requires
            old(self).inv(),
            signers@.len() > 0,
            !old(self).digest_to_state@.dom().contains(digest),
            signers@.len() + old(self).request_num_peers <= usize::MAX,
            !signers@.contains(old(self).my_peer_id),
        ensures
            final(self).inv(),
            peers@ == rotation_window(signers@, 0, old(self).request_num_peers as int),
            !peers@.contains(final(self).my_peer_id),
            final(self).digest_to_state@ == old(self).digest_to_state@.insert(
                digest,
                BatchRequesterState::new_spec(signers, ret_tx).advanced(
                    old(self).request_num_peers as int,
                ),
            ),
            exists|e: i64| #![trigger old(self).timeouts.entries().push((e, digest))]
                scheduled_entry((e, digest), digest, old(self).request_timeout_ms)
                    && final(self).timeouts.entries()
                    == old(self).timeouts.entries().push((e, digest)),
            final(self).epoch == old(self).epoch,
            final(self).my_peer_id == old(self).my_peer_id,
            final(self).request_num_peers == old(self).request_num_peers,
            final(self).request_timeout_ms == old(self).request_timeout_ms,
    {
        let ghost signers_view = signers@;
        let mut request_state = BatchRequesterState::new(signers, ret_tx);
        let request_peers = request_state.next_request_peers(self.request_num_peers);
        proof {
            lemma_window_membership(
                signers_view,
                0,
                self.request_num_peers as int,
                self.my_peer_id,
            );
        }
        match request_peers {
            Some(peers) => {
                self.digest_to_state.insert(digest, request_state);
                let ghost t_before = self.timeouts.entries();
                self.timeouts.add_digest(digest, self.request_timeout_ms);
                proof {
                    let e_c = choose|e: i64|
                        scheduled_entry((e, digest), digest, self.request_timeout_ms)
                            && self.timeouts.entries() == t_before.push((e, digest));
                    assert(scheduled_entry((e_c, digest), digest, old(self).request_timeout_ms)
                        && self.timeouts.entries() == old(self).timeouts.entries().push(
                        (e_c, digest),
                    ));
                }
                peers
            },
            None => {
                assert(false);
                Vec::new()
            },
        }
    }

    /// Handles a batch of expired digests in order: pending digests with
    /// retries left advance their rotation and are returned with the peers
    /// to resend to (their timeout is rescheduled); pending digests out of
    /// budget are removed and their failure is delivered through their sink;
    /// unknown digests are ignored.
    pub fn handle_expired(&mut self, expired: &Vec<Digest>) -> (resends: Vec<(Digest, Vec<PeerId>)>)
        requires
            old(self).inv(),
        ensures
            final(self).inv(),
            final(self).digest_to_state@ == run_expiry(
                old(self).digest_to_state@,
                expired@,
                old(self).request_num_peers as int,
            ),
            resends@.map_values(|p: (Digest, Vec<PeerId>)| (p.0, p.1@)) == run_expiry_resends(
                old(self).digest_to_state@,
                expired@,
                old(self).request_num_peers as int,
            ),
            final(self).timeouts.entries().len() == old(self).timeouts.entries().len()
                + resends@.len(),
            forall|i: int|
                0 <= i < old(self).timeouts.entries().len()
                    ==> #[trigger] final(self).timeouts.entries()[i]
                    == old(self).timeouts.entries()[i],
            forall|i: int|
                0 <= i < resends@.len() ==> scheduled_entry(
                    #[trigger] final(self).timeouts.entries()[
                        old(self).timeouts.entries().len() + i
                    ],
                    resends@[i].0,
                    old(self).request_timeout_ms,
                ),
            final(self).epoch == old(self).epoch,
            final(self).my_peer_id == old(self).my_peer_id,
            final(self).request_num_peers == old(self).request_num_peers,
            final(self).request_timeout_ms == old(self).request_timeout_ms,
    {
        let ghost m0 = self.digest_to_state@;
        let ghost kk = self.request_num_peers as int;
        let k = self.request_num_peers;
        let mut resends: Vec<(Digest, Vec<PeerId>)> = Vec::new();
        let mut j: usize = 0;
        proof {
            assert(expired@.take(0) =~= Seq::<Digest>::empty());
            assert(resends@.map_values(|p: (Digest, Vec<PeerId>)| (p.0, p.1@))
                =~= Seq::<(Digest, Seq<PeerId>)>::empty());
        }
        while j < expired.len()
            invariant
                j <= expired@.len(),
                self.inv(),
                self.request_num_peers == k,
                kk == k as int,
                self.request_timeout_ms == old(self).request_timeout_ms,
                self.epoch == old(self).epoch,
                self.my_peer_id == old(self).my_peer_id,
                self.digest_to_state@ == run_expiry(m0, expired@.take(j as int), kk),
                resends@.map_values(|p: (Digest, Vec<PeerId>)| (p.0, p.1@)) == run_expiry_resends(
                    m0,
                    expired@.take(j as int),
                    kk,
                ),
                self.timeouts.entries().len() == old(self).timeouts.entries().len()
                    + resends@.len(),
                forall|i: int|
                    0 <= i < old(self).timeouts.entries().len()
                        ==> #[trigger] self.timeouts.entries()[i]
                        == old(self).timeouts.entries()[i],
                forall|i: int|
                    0 <= i < resends@.len() ==> scheduled_entry(
                        #[trigger] self.timeouts.entries()[
                            old(self).timeouts.entries().len() + i
                        ],
                        resends@[i].0,
                        old(self).request_timeout_ms,
                    ),
            decreases expired@.len() - j,
        {
            let digest = expired[j];
            let ghost m_before = self.digest_to_state@;
            let ghost resends_before = resends@;
            match self.digest_to_state.remove(&digest) {
                Some(mut state) => {
                    match state.next_request_peers(k) {
                        Some(peers) => {
                            self.digest_to_state.insert(digest, state);
                            let ghost t_mid = self.timeouts.entries();
                            self.timeouts.add_digest(digest, self.request_timeout_ms);
                            resends.push((digest, peers));
                            proof {
                                assert(self.digest_to_state@ =~= expire_step(m_before, digest, kk));
                                assert(resends@.map_values(|p: (Digest, Vec<PeerId>)| (p.0, p.1@))
                                    =~= resends_before.map_values(
                                    |p: (Digest, Vec<PeerId>)| (p.0, p.1@),
                                ) + expire_step_resends(m_before, digest, kk));
                                let t0 = old(self).timeouts.entries();
                                let e_c = choose|e: i64|
                                    scheduled_entry((e, digest), digest, self.request_timeout_ms)
                                        && self.timeouts.entries() == t_mid.push((e, digest));
                                assert forall|i: int|
                                    0 <= i < t0.len() implies #[trigger] self.timeouts.entries()[i]
                                    == t0[i] by {
                                    assert(self.timeouts.entries()[i] == t_mid[i]);
                                }
                                assert forall|i: int|
                                    0 <= i < resends@.len() implies scheduled_entry(
                                    #[trigger] self.timeouts.entries()[t0.len() + i],
                                    resends@[i].0,
                                    old(self).request_timeout_ms,
                                ) by {
                                    if i < resends_before.len() {
                                        assert(self.timeouts.entries()[t0.len() + i]
                                            == t_mid[t0.len() + i]);
                                    } else {
                                        assert(t0.len() + i == t_mid.len());
                                        assert(self.timeouts.entries()[t0.len() + i] == (
                                            e_c,
                                            digest,
                                        ));
                                    }
                                }
                            }
                        },
                        None => {
                            let _ = state.serve_request(digest, None);
                            proof {
                                assert(self.digest_to_state@ =~= expire_step(m_before, digest, kk));
                                assert(resends@.map_values(|p: (Digest, Vec<PeerId>)| (p.0, p.1@))
                                    =~= resends_before.map_values(
                                    |p: (Digest, Vec<PeerId>)| (p.0, p.1@),
                                ) + expire_step_resends(m_before, digest, kk));
                            }
                        },
                    }
                },
                None => {
                    proof {
                        assert(self.digest_to_state@ =~= expire_step(m_before, digest, kk));
                        assert(resends@.map_values(|p: (Digest, Vec<PeerId>)| (p.0, p.1@))
                            =~= resends_before.map_values(|p: (Digest, Vec<PeerId>)| (p.0, p.1@))
                            + expire_step_resends(m_before, digest, kk));
                    }
                },
            }
            proof {
                assert(expired@.take(j + 1) =~= expired@.take(j as int).push(expired@[j as int]));
                lemma_run_expiry_snoc(m0, expired@.take(j as int), expired@[j as int], kk);
            }
            j = j + 1;
        }
        proof {
            assert(expired@.take(expired@.len() as int) =~= expired@);
        }
        resends
    }

    /// Drains the timeout entries that have expired by the wall clock — the
    /// front prefix of the old queue at some clock value — and handles their
    /// digests exactly as `handle_expired` does. The entries that had not
    /// expired stay, in order, followed by one rescheduled entry per resend.
    pub fn handle_timeouts(&mut self) -> (resends: Vec<(Digest, Vec<PeerId>)>)
        requires
            old(self).inv(),
        ensures
            final(self).inv(),
            exists|now: i64| #![trigger expired_prefix_len(old(self).timeouts.entries(), now)]
                ({
                    let q0 = old(self).timeouts.entries();
                    let p = expired_prefix_len(q0, now) as int;
                    let ds = prefix_keys(q0, expired_prefix_len(q0, now));
                    &&& -CLOCK_BOUND_MS <= now <= CLOCK_BOUND_MS
                    &&& p <= q0.len()
                    &&& final(self).digest_to_state@ == run_expiry(
                        old(self).digest_to_state@,
                        ds,
                        old(self).request_num_peers as int,
                    )
                    &&& resends@.map_values(|pr: (Digest, Vec<PeerId>)| (pr.0, pr.1@))
                        == run_expiry_resends(
                        old(self).digest_to_state@,
                        ds,
                        old(self).request_num_peers as int,
                    )
                    &&& final(self).timeouts.entries().len() == q0.len() - p + resends@.len()
                    &&& forall|i: int|
                        0 <= i < q0.len() - p ==> #[trigger] final(self).timeouts.entries()[i]
                            == q0[p + i]
                    &&& forall|i: int|
                        0 <= i < resends@.len() ==> scheduled_entry(
                            #[trigger] final(self).timeouts.entries()[q0.len() - p + i],
                            resends@[i].0,
                            old(self).request_timeout_ms,
                        )
                }),
            final(self).epoch == old(self).epoch,
            final(self).my_peer_id == old(self).my_peer_id,
            final(self).request_num_peers == old(self).request_num_peers,
            final(self).request_timeout_ms == old(self).request_timeout_ms,
    {
        let ghost q0 = self.timeouts.entries();
        let expired = self.timeouts.expire();
        let ghost now_w = choose|now: i64|
            -CLOCK_BOUND_MS <= now <= CLOCK_BOUND_MS && expired@ == prefix_keys(
                q0,
                expired_prefix_len(q0, now),
            ) && self.timeouts.entries() == q0.skip(expired_prefix_len(q0, now) as int);
        let ghost mid_entries = self.timeouts.entries();
        let resends = self.handle_expired(&expired);
        proof {
            lemma_expired_prefix_len_bound(q0, now_w);
            let p = expired_prefix_len(q0, now_w) as int;
            assert(mid_entries == q0.skip(p));
            assert(mid_entries.len() == q0.len() - p);
            assert forall|i: int| 0 <= i < q0.len() - p implies #[trigger] self.timeouts.entries()[i]
                == q0[p + i] by {
                assert(self.timeouts.entries()[i] == mid_entries[i]);
                assert(mid_entries[i] == q0.skip(p)[i]);
            }
            assert forall|i: int| 0 <= i < resends@.len() implies scheduled_entry(
                #[trigger] self.timeouts.entries()[q0.len() - p + i],
                resends@[i].0,
                old(self).request_timeout_ms,
            ) by {
                assert(q0.len() - p + i == mid_entries.len() + i);
            }
            let ds = prefix_keys(q0, expired_prefix_len(q0, now_w));
            assert(expired@ == ds);
            assert(self.digest_to_state@ == run_expiry(
                old(self).digest_to_state@,
                ds,
                old(self).request_num_peers as int,
            ));
            assert(resends@.map_values(|pr: (Digest, Vec<PeerId>)| (pr.0, pr.1@))
                == run_expiry_resends(
                old(self).digest_to_state@,
                ds,
                old(self).request_num_peers as int,
            ));
        }
        resends
    }

    /// Delivers `payload` for `digest` if it is still pending and removes it
    /// from the map; a late or duplicate response is silently ignored.
    pub fn serve_request(&mut self, digest: Digest, payload: Vec<SignedTransaction>)
        requires
            old(self).inv(),
        ensures
            final(self).inv(),
            old(self).digest_to_state@.dom().contains(digest) ==> final(self).digest_to_state@
                == old(self).digest_to_state@.remove(digest),
            !old(self).digest_to_state@.dom().contains(digest) ==> final(self).digest_to_state@
                == old(self).digest_to_state@,
            final(self).timeouts == old(self).timeouts,
            final(self).epoch == old(self).epoch,
            final(self).my_peer_id == old(self).my_peer_id,
            final(self).request_num_peers == old(self).request_num_peers,
            final(self).request_timeout_ms == old(self).request_timeout_ms,
    {
        if self.digest_to_state.contains_key(&digest) {
            match self.digest_to_state.remove(&digest) {
                Some(state) => {
                    let _ = state.serve_request(digest, Some(payload));
                },
                None => {},
            }
        }
    }
}

impl BatchRequesterState {
    /// The state `new` builds, for use in contracts.
    pub open spec fn new_spec(signers: Vec<PeerId>, ret_tx: Sender<BatchResult>) -> Self {
        BatchRequesterState {
            signers,
            next_index: 0,
            ret_tx,
            num_retries: 0,
            max_num_retry: DEFAULT_MAX_NUM_RETRY,
        }
    }
}

/// An event the coordinator can observe for one digest.
pub enum DigestEvent {
    TimerExpired,
    ResponseArrived,
}

/// The outcome a resolution delivers through the sink.
pub enum Resolution {
    Success,
    Failure,
}

pub open spec fn opt_seq(r: Option<Resolution>) -> Seq<Resolution> {
    match r {
        Some(x) => seq![x],
        None => Seq::empty(),
    }
}

/// One transition of a single digest's life cycle: `st` is its pending state
/// while it is in the coordinator's map. A response resolves it with
/// success; a timer expiry either consumes a retry or, with the budget
/// exhausted, resolves it with failure.
pub open spec fn digest_step(st: Option<BatchRequesterState>, e: DigestEvent, k: int) -> (
    Option<BatchRequesterState>,
    Option<Resolution>,
) {
    match st {
        Option::None => (Option::None, Option::None),
        Option::Some(s) => match e {
            DigestEvent::ResponseArrived => (Option::None, Option::Some(Resolution::Success)),
            DigestEvent::TimerExpired => if s.can_retry() {
                (Option::Some(s.advanced(k)), Option::None)
            } else {
                (Option::None, Option::Some(Resolution::Failure))
            },
        },
    }
}

/// The state and the resolutions delivered over a whole event sequence.
pub open spec fn digest_run(st: Option<BatchRequesterState>, es: Seq<DigestEvent>, k: int) -> (
    Option<BatchRequesterState>,
    Seq<Resolution>,
)
    decreases es.len(),
{
    if es.len() == 0 {
        (st, Seq::empty())
    } else {
        let first = digest_step(st, es[0], k);
        let rest = digest_run(first.0, es.skip(1), k);
        (rest.0, opt_seq(first.1) + rest.1)
    }
}

proof fn lemma_run_none(es: Seq<DigestEvent>, k: int)
    ensures
        digest_run(Option::None, es, k).0 is None,
        digest_run(Option::None, es, k).1 == Seq::<Resolution>::empty(),
    decreases es.len(),
{
    if es.len() > 0 {
        lemma_run_none(es.skip(1), k);
        assert(digest_run(Option::None, es, k).1 =~= Seq::<Resolution>::empty());
    }
}

/// Exactly-once resolution: however timer expiries and response arrivals
/// interleave for one digest, at most one resolution is ever delivered; once
/// the digest has left the map, exactly one was; and the resolution is a
/// success if and only if a response arrived while the digest was still
/// pending.
pub proof fn lemma_exactly_once_resolution(
    st: Option<BatchRequesterState>,
    es: Seq<DigestEvent>,
    k: int,
)
    ensures
        digest_run(st, es, k).1.len() <= 1,
        st is None ==> digest_run(st, es, k).0 is None && digest_run(st, es, k).1.len() == 0,
        st is Some ==> (digest_run(st, es, k).1.len() == 1 <==> digest_run(st, es, k).0 is None),
        digest_run(st, es, k).1 == seq![Resolution::Success] <==> exists|i: int|
            0 <= i < es.len() && es[i] is ResponseArrived && (#[trigger] digest_run(
                st,
                es.take(i),
                k,
            )).0 is Some,
    decreases es.len(),
{
    let r = digest_run(st, es, k);
    if st is None {
        lemma_run_none(es, k);
        assert forall|i: int| 0 <= i < es.len() implies !((#[trigger] digest_run(
            st,
            es.take(i),
            k,
        )).0 is Some) by {
            lemma_run_none(es.take(i), k);
        }
        assert(r.1.len() != 1);
    } else if es.len() == 0 {
        assert(r.1.len() == 0);
    } else {
        let s = st.unwrap();
        let e0 = es[0];
        let step = digest_step(st, e0, k);
        let st1 = step.0;
        let tail = es.skip(1);
        lemma_exactly_once_resolution(st1, tail, k);
        let rt = digest_run(st1, tail, k);
        assert(es.take(0).len() == 0);
        assert forall|i: int| 1 <= i <= es.len() implies digest_run(st, es.take(i), k).0
            == digest_run(st1, tail.take(i - 1), k).0 by {
            let p = es.take(i);
            assert(p.len() == i);
            assert(p[0] == es[0]);
            assert(p.skip(1) =~= tail.take(i - 1));
        }
        match e0 {
            DigestEvent::ResponseArrived => {
                lemma_run_none(tail, k);
                assert(r.1 =~= seq![Resolution::Success]);
                assert(digest_run(st, es.take(0), k).0 is Some);
            },
            DigestEvent::TimerExpired => {
                if s.can_retry() {
                    assert(r.1 =~= rt.1);
                    assert(r.0 == rt.0);
                    if rt.1 == seq![Resolution::Success] {
                        let i2 = choose|i2: int|
                            0 <= i2 < tail.len() && tail[i2] is ResponseArrived && (
                            #[trigger] digest_run(st1, tail.take(i2), k)).0 is Some;
                        assert(es[i2 + 1] == tail[i2]);
                        assert(digest_run(st, es.take(i2 + 1), k).0 is Some);
                    }
                    if exists|i: int|
                        0 <= i < es.len() && es[i] is ResponseArrived && (#[trigger] digest_run(
                            st,
                            es.take(i),
                            k,
                        )).0 is Some {
                        let i = choose|i: int|
                            0 <= i < es.len() && es[i] is ResponseArrived && (
                            #[trigger] digest_run(st, es.take(i), k)).0 is Some;
                        assert(i >= 1);
                        assert(tail[i - 1] == es[i]);
                        assert(digest_run(st1, tail.take(i - 1), k).0 is Some);
                        assert(rt.1 == seq![Resolution::Success]);
                    }
                } else {
                    lemma_run_none(tail, k);
                    assert(r.1 =~= seq![Resolution::Failure]);
                    if r.1 == seq![Resolution::Success] {
                        assert(r.1[0] == Resolution::Failure);
                        assert(r.1[0] == Resolution::Success);
                    }
                    assert forall|i: int| 1 <= i < es.len() implies !((#[trigger] digest_run(
                        st,
                        es.take(i),
                        k,
                    )).0 is Some) by {
                        lemma_run_none(tail.take(i - 1), k);
                    }
                }
            },
        }
    }
}

} // verus!
