use middleware::decode::{generation_from_json, generation_from_value, key_block_from_json};
use middleware::error::MiddlewareError;
use middleware::store::Store;
use middleware::sync::{ingest_generation, FetchOutcome};

fn key_block_json(height: u64, hash: &str) -> String {
    let head = format!("{{\"height\":{},\"hash\":\"{}\",", height, hash);
    let mid = "\"prev_hash\":\"ph\",\"prev_key_hash\":\"pkh\",\"miner\":\"ak_miner\",\"beneficiary\":\"ak_bene\",";
    let tail = "\"target\":504082055,\"pow\":\"[1,2,3]\",\"nonce\":8848,\"time\":1545074628546,\"version\":1}";
    format!("{}{}{}", head, mid, tail)
}

fn generation_json(height: u64, hash: &str, micro_prev_key: &str) -> String {
    let mb_head = format!(
        "{{\"hash\":\"mh_1\",\"prev_hash\":\"mph\",\"prev_key_hash\":\"{}\",",
        micro_prev_key
    );
    let mb_mid = "\"pof_hash\":\"no_fraud\",\"signature\":\"sg_1\",\"state_hash\":\"bs_1\",\"txs_hash\":\"bx_1\",\"time\":1545074639204,\"version\":1,";
    let txs = "\"transactions\":[{\"hash\":\"th_1\",\"signatures\":\"sg_t\",\"tx_type\":\"SpendTx\",\"sender_id\":\"ak_from\",\"recipient_id\":\"ak_to\"}]}";
    format!(
        "{{\"key_block\":{},\"micro_blocks\":[{}{}{}]}}",
        key_block_json(height, hash),
        mb_head,
        mb_mid,
        txs
    )
}

#[test]
fn decodes_a_generation_and_ingests_it() {
    let body = generation_json(2, "kh_a2", "kh_a2");
    let g = generation_from_json(&body, 2).unwrap();
    assert_eq!(g.key_block.height, 2);
    assert_eq!(g.key_block.hash, "kh_a2");
    assert_eq!(g.key_block.nonce, 8848);
    assert_eq!(g.micro_blocks.len(), 1);
    let mb = &g.micro_blocks[0];
    assert_eq!(mb.prev_key_hash, "kh_a2");
    assert_eq!(mb.transactions.len(), 1);
    let tx = &mb.transactions[0];
    assert_eq!(tx.block_height, 2);
    assert_eq!(tx.sender_id.as_deref(), Some("ak_from"));
    assert_eq!(tx.recipient_id.as_deref(), Some("ak_to"));
    assert_eq!(tx.contract_id, None);

    let mut store = Store::new();
    ingest_generation(&mut store, 2, FetchOutcome::Fetched(g)).unwrap();
    assert_eq!(store.key_block_hash_at(2).unwrap(), "kh_a2");
}

#[test]
fn decode_rejects_malformed_payloads() {
    // not JSON at all
    assert_eq!(
        generation_from_json("it's not JSON", 2).unwrap_err(),
        MiddlewareError::Parse
    );
    // an answer about some other height
    let body = generation_json(3, "kh_a3", "kh_a3");
    assert_eq!(generation_from_json(&body, 2).unwrap_err(), MiddlewareError::Parse);
    // a micro block that does not hang off its key block
    let body = generation_json(2, "kh_a2", "kh_wrong");
    assert_eq!(generation_from_json(&body, 2).unwrap_err(), MiddlewareError::Parse);
    // a missing required member
    let body = "{\"micro_blocks\":[]}";
    assert_eq!(generation_from_json(body, 2).unwrap_err(), MiddlewareError::Parse);
    // a version that does not fit
    let body = generation_json(2, "kh_a2", "kh_a2").replace("\"version\":1}", "\"version\":4294967296}");
    assert_eq!(generation_from_json(&body, 2).unwrap_err(), MiddlewareError::Parse);
    // a negative number where an unsigned one is owed
    let body = generation_json(2, "kh_a2", "kh_a2").replace("\"nonce\":8848", "\"nonce\":-1");
    assert_eq!(generation_from_json(&body, 2).unwrap_err(), MiddlewareError::Parse);
    // a number spelled as a string
    let body = generation_json(2, "kh_a2", "kh_a2").replace("\"height\":2", "\"height\":\"2\"");
    assert_eq!(generation_from_json(&body, 2).unwrap_err(), MiddlewareError::Parse);
}

#[test]
fn decode_takes_fields_from_the_payload() {
    // a decoder that ignored its input could not produce these values
    let a = generation_from_json(&generation_json(4, "kh_one", "kh_one"), 4).unwrap();
    let b = generation_from_json(&generation_json(9, "kh_two", "kh_two"), 9).unwrap();
    assert_eq!(a.key_block.hash, "kh_one");
    assert_eq!(b.key_block.hash, "kh_two");
    assert_ne!(a.key_block.height, b.key_block.height);
}

#[test]
fn decodes_the_chain_tip() {
    let (h, hash) = key_block_from_json(&key_block_json(1234, "kh_top")).unwrap();
    assert_eq!((h, hash.as_str()), (1234, "kh_top"));
    // the same answer wrapped in a key_block member
    let wrapped = format!("{{\"key_block\":{}}}", key_block_json(77, "kh_w"));
    let (h, hash) = key_block_from_json(&wrapped).unwrap();
    assert_eq!((h, hash.as_str()), (77, "kh_w"));
    assert_eq!(
        key_block_from_json("{\"height\":1}").unwrap_err(),
        MiddlewareError::Parse
    );
}

#[test]
fn decode_accepts_a_parsed_value_too() {
    let v: serde_json::Value =
        serde_json::from_str(&generation_json(5, "kh_v", "kh_v")).unwrap();
    let g = generation_from_value(&v, 5).unwrap();
    assert_eq!(g.key_block.hash, "kh_v");
}
