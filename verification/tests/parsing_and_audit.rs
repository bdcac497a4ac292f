use middleware::audit;
use middleware::chain::{Generation, KeyBlock, MicroBlock, Transaction};
use middleware::error::MiddlewareError;
use middleware::heightspec::parse_heights;
use middleware::ident::Identifier;
use middleware::node::NodeChain;
use middleware::queries::offset_limit;
use middleware::recovery::{RecoveryAction, RecoveryPolicy};
use middleware::store::Store;
use middleware::sync::{ingest_generation, FetchOutcome};

fn mk_gen(height: u64, hash: &str) -> Generation {
    let kb = KeyBlock {
        height,
        hash: hash.to_string(),
        prev_hash: "prev".to_string(),
        prev_key_hash: "prev_key".to_string(),
        miner: "miner".to_string(),
        beneficiary: "beneficiary".to_string(),
        target: 1,
        pow: "pow".to_string(),
        nonce: 0,
        time: height,
        version: 1,
    };
    let tx = Transaction {
        hash: format!("th_{}", hash),
        block_height: height,
        signatures: "sig".to_string(),
        tx_type: "SpendTx".to_string(),
        sender_id: None,
        account_id: None,
        recipient_id: None,
        owner_id: None,
        contract_id: None,
        channel_id: None,
        query_id: None,
    };
    let mb = MicroBlock {
        hash: format!("mh_{}", hash),
        prev_hash: "mprev".to_string(),
        prev_key_hash: hash.to_string(),
        pof_hash: "no_fraud".to_string(),
        signature: "sg".to_string(),
        state_hash: "bs".to_string(),
        txs_hash: "bx".to_string(),
        time: height,
        version: 1,
        transactions: vec![tx],
    };
    Generation { key_block: kb, micro_blocks: vec![mb] }
}

fn put(store: &mut Store, g: Generation) {
    let h = g.key_block.height;
    ingest_generation(store, h, FetchOutcome::Fetched(g)).unwrap();
}

#[test]
fn height_spec_expands_half_open_ranges() {
    // the documented convention: the range's upper bound is excluded
    assert_eq!(parse_heights("5,10-12,20").unwrap(), vec![5, 10, 11, 20]);
}

#[test]
fn height_spec_single_values_and_runs() {
    assert_eq!(parse_heights("0").unwrap(), vec![0]);
    assert_eq!(parse_heights("0-3").unwrap(), vec![0, 1, 2]);
    assert_eq!(parse_heights("7,7,7").unwrap(), vec![7, 7, 7]);
    // an empty interval names nothing
    assert_eq!(parse_heights("5-5").unwrap(), Vec::<u64>::new());
    assert_eq!(parse_heights("9-5").unwrap(), Vec::<u64>::new());
    assert_eq!(
        parse_heights("18446744073709551615").unwrap(),
        vec![u64::MAX]
    );
}

#[test]
fn height_spec_rejects_malformed_input() {
    for bad in [
        "",
        ",",
        "5,",
        ",5",
        "a",
        "5x",
        "1-2-3",
        "5,,6",
        "5-",
        "-5",
        "1.5",
        "5, 6",
        "18446744073709551616",
        "99999999999999999999999",
    ]
    .iter()
    {
        match parse_heights(bad) {
            Err(MiddlewareError::Parse) => {}
            other => panic!("{:?} accepted as {:?}", bad, other),
        }
    }
}

#[test]
fn identifiers_are_validated_at_the_boundary() {
    let ok = "ak_2a1j2Mk9YSmC1gioUq4PWRm3bsv887MbuRVwyv4KaUGoR1eiKi";
    let id = Identifier::parse(ok).unwrap();
    assert_eq!(id.as_str(), ok);

    let base = "2a1j2Mk9YSmC1gioUq4PWRm3bsv887MbuRVwyv4K";
    assert!(Identifier::parse(&format!("ct_{}", base)).is_ok());
    // wrong prefix shape
    assert!(Identifier::parse(&format!("A k{}", base)).is_err());
    assert!(Identifier::parse(&format!("akx{}", base)).is_err());
    // characters outside the base-58 alphabet
    assert!(Identifier::parse(&format!("ak_0{}", &base[1..])).is_err());
    assert!(Identifier::parse(&format!("ak_O{}", &base[1..])).is_err());
    assert!(Identifier::parse(&format!("ak_I{}", &base[1..])).is_err());
    assert!(Identifier::parse(&format!("ak_l{}", &base[1..])).is_err());
    // too short, too long
    assert!(Identifier::parse("ak_abc").is_err());
    let long = "a".repeat(61);
    assert!(Identifier::parse(&format!("ak_{}", long)).is_err());
    // 40 and 60 payload characters are the bounds, inclusive
    assert!(Identifier::parse(&format!("ak_{}", "z".repeat(40))).is_ok());
    assert!(Identifier::parse(&format!("ak_{}", "z".repeat(60))).is_ok());
    assert!(Identifier::parse(&format!("ak_{}", "z".repeat(39))).is_err());
}

#[test]
fn audit_reports_every_divergence() {
    let mut store = Store::new();
    put(&mut store, mk_gen(0, "kh_c0"));
    put(&mut store, mk_gen(1, "kh_x1")); // diverges
    put(&mut store, mk_gen(2, "kh_c2"));
    put(&mut store, mk_gen(3, "kh_x3")); // diverges
    put(&mut store, mk_gen(5, "kh_c5")); // beyond the node's top
    let chain = NodeChain {
        gens: vec![
            mk_gen(0, "kh_c0"),
            mk_gen(1, "kh_c1"),
            mk_gen(2, "kh_c2"),
            mk_gen(3, "kh_c3"),
        ],
    };
    let report = audit::verify(&store, &chain);
    assert_eq!(report, vec![1, 3, 5]);
    // the audit mutates nothing
    assert_eq!(store.top_height(), Some(5));
    for (h, want) in [(0, "kh_c0"), (1, "kh_x1"), (2, "kh_c2"), (3, "kh_x3"), (5, "kh_c5")].iter() {
        assert_eq!(store.key_block_hash_at(*h).unwrap(), want.to_string());
    }
}

#[test]
fn audit_of_matching_store_is_empty() {
    let mut store = Store::new();
    put(&mut store, mk_gen(0, "kh_c0"));
    let chain = NodeChain { gens: vec![mk_gen(0, "kh_c0"), mk_gen(1, "kh_c1")] };
    assert_eq!(audit::verify(&store, &chain), Vec::<u64>::new());
    assert_eq!(audit::verify(&Store::new(), &chain), Vec::<u64>::new());
}

#[test]
fn chain_coherence_is_checked() {
    let good = NodeChain { gens: vec![mk_gen(0, "kh_c0"), mk_gen(1, "kh_c1")] };
    assert!(good.check_coherent());
    assert_eq!(good.top(), 1);
    // a generation out of position
    let shifted = NodeChain { gens: vec![mk_gen(1, "kh_c1")] };
    assert!(!shifted.check_coherent());
    // a micro block pointing at the wrong key block
    let mut broken = NodeChain { gens: vec![mk_gen(0, "kh_c0")] };
    broken.gens[0].micro_blocks[0].prev_key_hash = "kh_other".to_string();
    assert!(!broken.check_coherent());
    // so is a transaction with the wrong denormalized height
    let mut wrong_tx = NodeChain { gens: vec![mk_gen(0, "kh_c0")] };
    wrong_tx.gens[0].micro_blocks[0].transactions[0].block_height = 9;
    assert!(!wrong_tx.check_coherent());
}

#[test]
fn recovery_backs_off_then_defers() {
    let policy = RecoveryPolicy { max_retries: 3, base_delay_ms: 100 };
    assert_eq!(policy.decide(0), RecoveryAction::Retry(100));
    assert_eq!(policy.decide(1), RecoveryAction::Retry(200));
    assert_eq!(policy.decide(2), RecoveryAction::Retry(300));
    assert_eq!(policy.decide(3), RecoveryAction::Defer);
    assert_eq!(policy.decide(100), RecoveryAction::Defer);
    // the delay saturates instead of overflowing
    let wide = RecoveryPolicy { max_retries: u32::MAX, base_delay_ms: u64::MAX / 2 };
    assert_eq!(wide.decide(5), RecoveryAction::Retry(u64::MAX));
}

#[test]
fn pagination_offsets_count_from_page_one() {
    assert_eq!(offset_limit(None, None), (0, None));
    assert_eq!(offset_limit(None, Some(7)), (0, None));
    assert_eq!(offset_limit(Some(25), None), (0, Some(25)));
    assert_eq!(offset_limit(Some(25), Some(1)), (0, Some(25)));
    assert_eq!(offset_limit(Some(25), Some(3)), (50, Some(25)));
    assert_eq!(
        offset_limit(Some(u32::MAX), Some(u32::MAX)),
        ((u32::MAX as u64 - 1) * u32::MAX as u64, Some(u32::MAX as u64))
    );
}

#[test]
fn derived_indices_follow_the_transactions() {
    let mut g = mk_gen(4, "kh_d4");
    let mut t1 = g.micro_blocks[0].transactions[0].duplicate();
    t1.hash = "th_ct".to_string();
    t1.tx_type = "ContractCreateTx".to_string();
    t1.contract_id = Some("ct_alpha".to_string());
    let mut t2 = t1.duplicate();
    t2.hash = "th_ch".to_string();
    t2.tx_type = "ChannelCreateTx".to_string();
    t2.contract_id = None;
    t2.channel_id = Some("ch_beta".to_string());
    let mut t3 = t1.duplicate();
    t3.hash = "th_ct2".to_string();
    t3.contract_id = Some("ct_gamma".to_string());
    g.micro_blocks[0].transactions.push(t1);
    g.micro_blocks[0].transactions.push(t2);
    g.micro_blocks[0].transactions.push(t3);
    let (contracts, channels) = middleware::queries::derived_identifiers(&g);
    assert_eq!(contracts, vec!["ct_alpha".to_string(), "ct_gamma".to_string()]);
    assert_eq!(channels, vec!["ch_beta".to_string()]);
    let empty = mk_gen(0, "kh_d0");
    let (c, k) = middleware::queries::derived_identifiers(&empty);
    assert!(c.is_empty() && k.is_empty());
}

#[test]
fn error_descriptions_name_the_cause() {
    assert_eq!(MiddlewareError::Network.describe(), "network error");
    assert_eq!(MiddlewareError::Parse.describe(), "parse error");
    assert_eq!(MiddlewareError::Store.describe(), "store error");
    assert_eq!(MiddlewareError::Consistency.describe(), "consistency error");
    assert_eq!(MiddlewareError::Config.describe(), "configuration error");
}
