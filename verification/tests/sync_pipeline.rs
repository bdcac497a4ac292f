use middleware::chain::{Generation, KeyBlock, MicroBlock, Transaction};
use middleware::fork::{detect_forks, find_divergence, resync_from};
use middleware::node::NodeChain;
use middleware::queue::{QueueEntry, SyncQueue};
use middleware::store::Store;
use middleware::sync::{
    fill_missing_heights, ingest_generation, load_heights, sync_to_chain, FetchOutcome, Worker,
    WorkerAction, WorkerMode,
};

fn mk_kb(height: u64, hash: &str, prev_key_hash: &str) -> KeyBlock {
    KeyBlock {
        height,
        hash: hash.to_string(),
        prev_hash: format!("{}-prev", hash),
        prev_key_hash: prev_key_hash.to_string(),
        miner: "miner".to_string(),
        beneficiary: "beneficiary".to_string(),
        target: 1000,
        pow: "pow".to_string(),
        nonce: 7,
        time: 1_545_000_000 + height,
        version: 1,
    }
}

fn mk_tx(hash: &str, height: u64) -> Transaction {
    Transaction {
        hash: hash.to_string(),
        block_height: height,
        signatures: "sig".to_string(),
        tx_type: "SpendTx".to_string(),
        sender_id: Some("ak_sender".to_string()),
        account_id: None,
        recipient_id: Some("ak_recipient".to_string()),
        owner_id: None,
        contract_id: None,
        channel_id: None,
        query_id: None,
    }
}

fn mk_mb(kb_hash: &str, hash: &str, height: u64, n_txs: u64) -> MicroBlock {
    let mut txs = Vec::new();
    let mut i = 0u64;
    while i < n_txs {
        txs.push(mk_tx(&format!("th_{}_{}", hash, i), height));
        i += 1;
    }
    MicroBlock {
        hash: hash.to_string(),
        prev_hash: format!("{}-prev", hash),
        prev_key_hash: kb_hash.to_string(),
        pof_hash: "no_fraud".to_string(),
        signature: "sg_micro".to_string(),
        state_hash: "bs_state".to_string(),
        txs_hash: "bx_txs".to_string(),
        time: 1_545_000_100 + height,
        version: 1,
        transactions: txs,
    }
}

fn mk_gen(height: u64, hash: &str, prev_key_hash: &str, n_txs: u64) -> Generation {
    let kb = mk_kb(height, hash, prev_key_hash);
    let mb = mk_mb(hash, &format!("mh_{}", hash), height, n_txs);
    Generation { key_block: kb, micro_blocks: vec![mb] }
}

/// A four-block chain with one micro block and one transaction each.
fn chain_a() -> NodeChain {
    NodeChain {
        gens: vec![
            mk_gen(0, "kh_a0", "kh_genesis", 1),
            mk_gen(1, "kh_a1", "kh_a0", 1),
            mk_gen(2, "kh_a2", "kh_a1", 1),
            mk_gen(3, "kh_a3", "kh_a2", 1),
        ],
    }
}

/// The same chain after a reorg at height 2.
fn chain_b() -> NodeChain {
    NodeChain {
        gens: vec![
            mk_gen(0, "kh_a0", "kh_genesis", 1),
            mk_gen(1, "kh_a1", "kh_a0", 1),
            mk_gen(2, "kh_b2", "kh_a1", 2),
            mk_gen(3, "kh_b3", "kh_b2", 1),
        ],
    }
}

fn stored_hash(store: &Store, h: u64) -> String {
    store
        .key_block_hash_at(h)
        .unwrap_or_else(|| panic!("no generation stored at height {}", h))
}

fn row_count_at(store: &Store, h: u64) -> (usize, usize) {
    let g = store.get_generation(h).expect("height missing");
    let micros = g.micro_blocks.len();
    let txs: usize = g.micro_blocks.iter().map(|m| m.transactions.len()).sum();
    (micros, txs)
}

#[test]
fn end_to_end_backfill_then_reorg() {
    // the end-to-end scenario: empty store, node at top height 3
    let chain = chain_a();
    let mut store = Store::new();
    let mut queue = SyncQueue::new();
    let mut worker = Worker::new();
    assert_eq!(worker.mode, WorkerMode::Backfill);

    let filled = fill_missing_heights(&store, 3, &mut queue).unwrap();
    assert!(filled);
    assert_eq!(queue.len(), 5); // heights 0..=3 plus the sentinel

    // the worker drains the queue, fetching from the node each time
    let mut fetched = 0u64;
    loop {
        match worker.next_action(&mut queue) {
            WorkerAction::FetchGeneration(h) => {
                let g = chain.generation_at(h).expect("node lacks height").duplicate();
                ingest_generation(&mut store, h, FetchOutcome::Fetched(g)).unwrap();
                fetched += 1;
            }
            WorkerAction::PollNode => break, // sentinel seen: live mode
            WorkerAction::Idle => panic!("queue ran dry before the sentinel"),
        }
    }
    assert_eq!(fetched, 4);
    assert_eq!(worker.mode, WorkerMode::Live);
    assert_eq!(store.top_height(), Some(3));
    for h in 0..=3u64 {
        assert_eq!(stored_hash(&store, h), format!("kh_a{}", h));
        assert_eq!(row_count_at(&store, h), (1, 1));
    }

    // the node now reports a different hash at height 2
    let chain2 = chain_b();
    let d = find_divergence(&store, &chain2, 0);
    assert_eq!(d, Some(2));
    resync_from(&mut store, &chain2, 2);
    assert_eq!(stored_hash(&store, 0), "kh_a0");
    assert_eq!(stored_hash(&store, 1), "kh_a1");
    assert_eq!(stored_hash(&store, 2), "kh_b2");
    assert_eq!(stored_hash(&store, 3), "kh_b3");
    assert_eq!(row_count_at(&store, 2), (1, 2));
}

#[test]
fn reingesting_unchanged_height_is_a_no_op() {
    let chain = chain_a();
    let mut store = Store::new();
    let g = chain.generation_at(2).unwrap().duplicate();
    ingest_generation(&mut store, 2, FetchOutcome::Fetched(g)).unwrap();
    let before = row_count_at(&store, 2);
    let again = chain.generation_at(2).unwrap().duplicate();
    ingest_generation(&mut store, 2, FetchOutcome::Fetched(again)).unwrap();
    assert_eq!(row_count_at(&store, 2), before);
    assert_eq!(store.top_height(), Some(2));
    assert_eq!(stored_hash(&store, 2), "kh_a2");
}

#[test]
fn failed_fetches_leave_store_untouched() {
    let mut store = Store::new();
    let e = ingest_generation(&mut store, 5, FetchOutcome::NetworkFailed).unwrap_err();
    assert_eq!(e, middleware::error::MiddlewareError::Network);
    let e = ingest_generation(&mut store, 5, FetchOutcome::ParseFailed).unwrap_err();
    assert_eq!(e, middleware::error::MiddlewareError::Parse);
    assert_eq!(store.top_height(), None);
    // a generation reported for the wrong height is malformed
    let g = chain_a().generation_at(1).unwrap().duplicate();
    let e = ingest_generation(&mut store, 2, FetchOutcome::Fetched(g)).unwrap_err();
    assert_eq!(e, middleware::error::MiddlewareError::Parse);
    // a broken micro-block linkage is a consistency failure
    let mut g = chain_a().generation_at(1).unwrap().duplicate();
    g.micro_blocks[0].prev_key_hash = "kh_wrong".to_string();
    let e = ingest_generation(&mut store, 1, FetchOutcome::Fetched(g)).unwrap_err();
    assert_eq!(e, middleware::error::MiddlewareError::Consistency);
    assert!(!store.height_present(1));
    assert!(!store.height_present(2));
}

#[test]
fn missing_heights_diffs_the_stored_set() {
    let chain = chain_a();
    let mut store = Store::new();
    for h in [0u64, 2].iter() {
        let g = chain.generation_at(*h).unwrap().duplicate();
        ingest_generation(&mut store, *h, FetchOutcome::Fetched(g)).unwrap();
    }
    let first = store.missing_heights(5);
    assert_eq!(first, vec![1, 3, 4, 5]);
    // repeated with no intervening writes: the same answer
    let second = store.missing_heights(5);
    assert_eq!(first, second);
    assert_eq!(store.missing_heights(0), Vec::<u64>::new());
}

#[test]
fn range_load_overlapping_the_pipeline() {
    let chain = chain_a();
    let mut store = Store::new();
    // the live pipeline ingests heights 2 and 3 ...
    for h in [2u64, 3].iter() {
        let g = chain.generation_at(*h).unwrap().duplicate();
        ingest_generation(&mut store, *h, FetchOutcome::Fetched(g)).unwrap();
    }
    // ... and an operator loads 1..=3, overlapping it
    let failed = load_heights(&mut store, &chain, &vec![1, 2, 3]);
    assert!(failed.is_empty());
    for h in 1..=3u64 {
        assert_eq!(stored_hash(&store, h), format!("kh_a{}", h));
        assert_eq!(row_count_at(&store, h), (1, 1));
    }
    assert!(!store.height_present(0));
    // a height the node does not cover is reported, not dropped
    let failed = load_heights(&mut store, &chain, &vec![2, 9]);
    assert_eq!(failed, vec![9]);
}

#[test]
fn sync_to_chain_reaches_canonical_state() {
    let mut store = Store::new();
    // stale state: heights 0..=3 from the old chain, 1 missing
    let old = chain_a();
    for h in [0u64, 2, 3].iter() {
        let g = old.generation_at(*h).unwrap().duplicate();
        ingest_generation(&mut store, *h, FetchOutcome::Fetched(g)).unwrap();
    }
    let chain = chain_b();
    sync_to_chain(&mut store, &chain);
    for h in 0..=3u64 {
        let want = match h {
            0 => "kh_a0",
            1 => "kh_a1",
            2 => "kh_b2",
            _ => "kh_b3",
        };
        assert_eq!(stored_hash(&store, h), want);
    }
}

#[test]
fn detect_forks_rolls_back_and_reenqueues() {
    let mut store = Store::new();
    let old = chain_a();
    for h in 0..=3u64 {
        let g = old.generation_at(h).unwrap().duplicate();
        ingest_generation(&mut store, h, FetchOutcome::Fetched(g)).unwrap();
    }
    let chain = chain_b();
    let mut queue = SyncQueue::new();
    let d = detect_forks(&mut store, &chain, 0, &mut queue);
    assert_eq!(d, Some(2));
    assert!(store.height_present(0));
    assert!(store.height_present(1));
    assert!(!store.height_present(2));
    assert!(!store.height_present(3));
    assert_eq!(queue.pop(), Some(QueueEntry::Height(2)));
    assert_eq!(queue.pop(), Some(QueueEntry::Height(3)));
    assert_eq!(queue.pop(), None);

    // a second pass over the repaired store finds nothing
    for h in 2..=3u64 {
        let g = chain.generation_at(h).unwrap().duplicate();
        ingest_generation(&mut store, h, FetchOutcome::Fetched(g)).unwrap();
    }
    let mut queue2 = SyncQueue::new();
    assert_eq!(detect_forks(&mut store, &chain, 0, &mut queue2), None);
    assert_eq!(queue2.len(), 0);
}

#[test]
fn live_poll_enqueues_only_new_heights() {
    let mut worker = Worker::new();
    let mut queue = SyncQueue::new();
    worker.observe_top(3, &mut queue);
    assert_eq!(worker.last_top, 3);
    assert_eq!(queue.pop(), Some(QueueEntry::Height(1)));
    assert_eq!(queue.pop(), Some(QueueEntry::Height(2)));
    assert_eq!(queue.pop(), Some(QueueEntry::Height(3)));
    assert_eq!(queue.pop(), None);
    // the node answering with an old top enqueues nothing
    worker.observe_top(2, &mut queue);
    assert_eq!(worker.last_top, 3);
    assert_eq!(queue.len(), 0);
    worker.observe_top(5, &mut queue);
    assert_eq!(worker.last_top, 5);
    assert_eq!(queue.len(), 2);
}

#[test]
fn queue_is_first_in_first_out() {
    let mut q = SyncQueue::new();
    assert!(q.is_empty());
    assert_eq!(q.pop(), None);
    q.push_height(7);
    q.push(QueueEntry::BacklogCleared);
    q.push_heights(&vec![8, 9]);
    assert_eq!(q.len(), 4);
    assert_eq!(q.pop(), Some(QueueEntry::Height(7)));
    assert_eq!(q.pop(), Some(QueueEntry::BacklogCleared));
    assert_eq!(q.pop(), Some(QueueEntry::Height(8)));
    assert_eq!(q.pop(), Some(QueueEntry::Height(9)));
    assert!(q.is_empty());
}

#[test]
fn worker_switches_to_live_on_sentinel() {
    let mut worker = Worker::new();
    let mut queue = SyncQueue::new();
    assert_eq!(worker.next_action(&mut queue), WorkerAction::Idle);
    queue.push_height(4);
    queue.push(QueueEntry::BacklogCleared);
    assert_eq!(worker.next_action(&mut queue), WorkerAction::FetchGeneration(4));
    assert_eq!(worker.mode, WorkerMode::Backfill);
    assert_eq!(worker.next_action(&mut queue), WorkerAction::PollNode);
    assert_eq!(worker.mode, WorkerMode::Live);
    // live mode polls when idle instead of sleeping on an empty queue
    assert_eq!(worker.next_action(&mut queue), WorkerAction::PollNode);
}
