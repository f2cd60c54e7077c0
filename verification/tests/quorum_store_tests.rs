use quorum_store::batch_builder::BatchBuilder;
use quorum_store::batch_requester::{BatchRequester, BatchRequesterState};
use quorum_store::round_expirations::RoundExpirations;
use quorum_store::timeouts::DigestTimeouts;
use quorum_store::types::{
    interpret_pool_response, BatchRequestError, PoolError, PoolResponse, SerializedTransaction,
    SignedTransaction, TransactionSummary,
};

fn txn(sender: u64, seq: u64, len: usize) -> SignedTransaction {
    SignedTransaction {
        sender,
        sequence_number: seq,
        serialized: vec![7u8; len],
    }
}

#[test]
fn batch_byte_bound() {
    let mut b = BatchBuilder::new(3, 100);
    assert!(b.is_empty());
    assert_eq!(b.batch_id(), 3);
    assert!(b.append_transaction(&txn(1, 10, 40)));
    assert!(b.append_transaction(&txn(2, 20, 40)));
    assert!(!b.append_transaction(&txn(3, 30, 40)));
    assert_eq!(b.num_bytes, 80);
    assert!(!b.is_empty());
    assert_eq!(b.batch_id(), 3);
    assert_eq!(b.summaries().len(), 2);

    let data = b.take_serialized_txns();
    assert_eq!(data.len(), 2);
    assert_eq!(data[0].len(), 40);
    assert_eq!(data[1].len(), 40);
    // draining the data leaves the byte counter alone
    assert_eq!(b.num_bytes, 80);

    let summaries = b.take_summaries();
    assert_eq!(
        summaries,
        vec![
            TransactionSummary { sender: 1, sequence_number: 10 },
            TransactionSummary { sender: 2, sequence_number: 20 },
        ]
    );
    assert_eq!(b.num_bytes, 0);
    assert_eq!(b.batch_id(), 4);
    assert!(b.is_empty());
}

#[test]
fn serialized_txn_copies_bytes() {
    let t = txn(5, 6, 3);
    let s = SerializedTransaction::from_signed_txn(&t);
    assert_eq!(s.len(), 3);
    assert_eq!(s.bytes, vec![7u8, 7, 7]);
}

#[test]
fn round_expiry_set() {
    let mut r: RoundExpirations<u64> = RoundExpirations::new();
    r.add_item(50, 5);
    r.add_item(30, 3);
    r.add_item(80, 8);
    let mut first = r.expire(6);
    first.sort();
    assert_eq!(first, vec![30, 50]);
    assert_eq!(r.expire(6), Vec::<u64>::new());
    assert_eq!(r.expire(9), vec![80]);
    assert_eq!(r.expire(9), Vec::<u64>::new());
}

#[test]
fn timeout_queue_ordering() {
    let dur = 100usize;
    let t = 1_000_000i64;
    let mut q = DigestTimeouts::new();
    q.schedule_at(t, 11, dur);
    q.schedule_at(t + 1, 22, dur);
    q.schedule_at(t + 2, 33, dur);
    // before the first expiry nothing drains
    let early = q.drain_expired_at(t + (dur as i64) - 1);
    assert_eq!(early, Vec::<u64>::new());
    // past the last expiry everything drains, in insertion order
    let all = q.drain_expired_at(t + 2 + dur as i64);
    assert_eq!(all, vec![11, 22, 33]);
    assert_eq!(q.drain_expired_at(t + 2 + dur as i64), Vec::<u64>::new());
}

#[test]
fn timeout_queue_partial_drain() {
    let mut q = DigestTimeouts::new();
    q.schedule_at(0, 1, 10);
    q.schedule_at(0, 2, 20);
    q.schedule_at(0, 3, 30);
    assert_eq!(q.drain_expired_at(20), vec![1, 2]);
    assert_eq!(q.drain_expired_at(29), Vec::<u64>::new());
    assert_eq!(q.drain_expired_at(30), vec![3]);
}

#[test]
fn timeout_queue_wall_clock() {
    let mut q = DigestTimeouts::new();
    q.add_digest(77, 0);
    let drained = q.expire();
    assert!(drained == vec![77] || drained.is_empty());
}

#[test]
fn rotation_and_budget() {
    let (tx, _rx) = tokio::sync::oneshot::channel();
    let mut st = BatchRequesterState::new(vec![1, 2, 3], tx);
    assert_eq!(st.next_request_peers(2), Some(vec![1, 2]));
    assert_eq!(st.next_request_peers(2), Some(vec![3, 1]));
    assert_eq!(st.next_request_peers(2), Some(vec![2, 3]));
    assert_eq!(st.next_request_peers(2), Some(vec![1, 2]));
    assert_eq!(st.next_request_peers(2), Some(vec![3, 1]));
    // budget of five is exhausted; repeated calls stay refused
    assert_eq!(st.next_request_peers(2), None);
    assert_eq!(st.next_request_peers(2), None);
}

#[test]
fn rotation_wraps_when_window_exceeds_signers() {
    let (tx, _rx) = tokio::sync::oneshot::channel();
    let mut st = BatchRequesterState::new(vec![4, 5], tx);
    assert_eq!(st.next_request_peers(5), Some(vec![4, 5, 4, 5, 4]));
    assert_eq!(st.next_request_peers(5), Some(vec![5, 4, 5, 4, 5]));
}

#[test]
fn serve_request_delivers_success() {
    let (tx, mut rx) = tokio::sync::oneshot::channel();
    let st = BatchRequesterState::new(vec![1], tx);
    let payload = vec![txn(1, 2, 4)];
    assert!(st.serve_request(9, Some(payload)).is_ok());
    let got = rx.try_recv().unwrap().unwrap();
    assert_eq!(got.len(), 1);
    assert_eq!(got[0].sender, 1);
    assert_eq!(got[0].sequence_number, 2);
    assert_eq!(got[0].serialized, vec![7u8; 4]);
}

#[test]
fn serve_request_delivers_failure() {
    let (tx, mut rx) = tokio::sync::oneshot::channel();
    let st = BatchRequesterState::new(vec![1], tx);
    assert!(st.serve_request(9, None).is_ok());
    let got = rx.try_recv().unwrap();
    assert_eq!(got, Err(BatchRequestError::CouldNotGetData));
}

#[test]
fn serve_request_tolerates_dropped_receiver() {
    let (tx, rx) = tokio::sync::oneshot::channel();
    drop(rx);
    let st = BatchRequesterState::new(vec![1], tx);
    // the undelivered outcome comes back unchanged
    assert_eq!(
        st.serve_request(9, None),
        Err(Err(BatchRequestError::CouldNotGetData))
    );
}

#[test]
fn coordinator_success_path() {
    let mut c = BatchRequester::new(1, 99, 2, 1000);
    let (tx, mut rx) = tokio::sync::oneshot::channel();
    let peers = c.add_request(7, vec![1, 2, 3], tx);
    assert_eq!(peers, vec![1, 2]);
    c.serve_request(7, vec![txn(1, 1, 8)]);
    let got = rx.try_recv().unwrap().unwrap();
    assert_eq!(got.len(), 1);
    // a late duplicate response for the same digest is ignored
    c.serve_request(7, vec![txn(2, 2, 8)]);
}

#[test]
fn coordinator_failure_after_budget() {
    let mut c = BatchRequester::new(1, 99, 2, 1000);
    let (tx, mut rx) = tokio::sync::oneshot::channel();
    let peers = c.add_request(7, vec![1, 2, 3], tx);
    assert_eq!(peers, vec![1, 2]);
    // four more retries remain after the initial send
    for _ in 0..4 {
        let resends = c.handle_expired(&vec![7]);
        assert_eq!(resends.len(), 1);
        assert_eq!(resends[0].0, 7);
        assert_eq!(resends[0].1.len(), 2);
    }
    // the budget is exhausted: the request resolves as a failure
    let resends = c.handle_expired(&vec![7]);
    assert!(resends.is_empty());
    assert_eq!(rx.try_recv().unwrap(), Err(BatchRequestError::CouldNotGetData));
    // a later timeout for the digest is a no-op
    let resends = c.handle_expired(&vec![7]);
    assert!(resends.is_empty());
}

#[test]
fn coordinator_ignores_unknown_digest() {
    let mut c = BatchRequester::new(1, 99, 2, 1000);
    let resends = c.handle_expired(&vec![42]);
    assert!(resends.is_empty());
    c.serve_request(42, vec![]);
    let resends = c.handle_timeouts();
    assert!(resends.is_empty());
}

#[test]
fn pool_response_interpretation() {
    assert_eq!(interpret_pool_response(None), Err(PoolError::Timeout));
    assert_eq!(
        interpret_pool_response(Some(PoolResponse::Other)),
        Err(PoolError::UnexpectedResponse)
    );
    let got = interpret_pool_response(Some(PoolResponse::Batch(vec![txn(1, 2, 3)]))).unwrap();
    assert_eq!(got.len(), 1);
    assert_eq!(got[0].serialized.len(), 3);
}
