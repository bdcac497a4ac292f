//! Decoding the node's JSON answers into chain values.
//!
//! The node speaks JSON over HTTP. The transport is the caller's; the
//! payload handling lives here: a body is parsed with `serde_json`, and
//! the resulting value is taken apart field by field into a
//! [`Generation`] or a chain tip.
//!
//! What parsing returns is a function of the text alone, so it gets a
//! name: [`json_doc`] is the document a text parses to (`None` when it
//! is not JSON), stated as a [`JsonVal`], the mathematical value of a
//! JSON document; [`json_of`] names the document a parsed
//! `serde_json::Value` holds. The trusted wrappers below say, over
//! those names, exactly what each `serde_json` call answers, and the
//! decoders' own contracts then pin their results completely: a decoder
//! returns `Ok` exactly on a document that spells a well-formed
//! generation at the requested height (or a tip), and what it returns
//! is that document's content — a parse error otherwise.
//!
//! A generation object looks like:
//! `{"key_block": {...}, "micro_blocks": [{..., "transactions": [...]}]}`.

use vstd::prelude::*;

use crate::chain::Generation;
use crate::chain::GenerationView;
use crate::chain::KeyBlock;
use crate::chain::KeyBlockView;
use crate::chain::MicroBlock;
use crate::chain::MicroBlockView;
use crate::chain::Transaction;
use crate::chain::TransactionView;
use crate::chain::string_eq;
use crate::error::MiddlewareError;

verus! {

/// The mathematical value of a JSON document. Numbers are split by
/// whether the parser reads them as unsigned integers — the only
/// numbers the node's schema uses; all others decode to nothing.
pub ghost enum JsonVal {
    Null,
    Bool(bool),
    /// A number the parser reads as an unsigned 64-bit integer.
    UInt(u64),
    /// Any other number: negative, fractional, or beyond 64 bits.
    OtherNumber,
    Text(Seq<char>),
    Arr(Seq<JsonVal>),
    Obj(Map<Seq<char>, JsonVal>),
}

/// The document a text parses to, or `None` when the text is not JSON.
/// Named, not stated: parsing is deterministic in its argument, and
/// only the trusted wrappers below say anything about this name.
pub uninterp spec fn json_doc(s: Seq<char>) -> Option<JsonVal>;

/// The document a parsed `serde_json::Value` holds.
pub uninterp spec fn json_of(v: serde_json::Value) -> JsonVal;

/// The member of an object document under `key`.
pub open spec fn obj_member(j: JsonVal, key: Seq<char>) -> Option<JsonVal> {
    match j {
        JsonVal::Obj(o) => if o.dom().contains(key) {
            Some(o[key])
        } else {
            None
        },
        _ => None,
    }
}

/// The unsigned member of an object document under `key`.
pub open spec fn member_u64(j: JsonVal, key: Seq<char>) -> Option<u64> {
    match obj_member(j, key) {
        Some(JsonVal::UInt(n)) => Some(n),
        _ => None,
    }
}

/// The text member of an object document under `key`.
pub open spec fn member_text(j: JsonVal, key: Seq<char>) -> Option<Seq<char>> {
    match obj_member(j, key) {
        Some(JsonVal::Text(t)) => Some(t),
        _ => None,
    }
}

#[verifier::external_type_specification]
#[verifier::external_body]
pub struct ExValue(serde_json::Value);

#[verifier::external_type_specification]
#[verifier::external_body]
pub struct ExJsonError(serde_json::Error);

/// Relies on serde_json::from_str: parse a JSON document, or say why
/// the text is not one. The answer is the text's document.
#[verifier::external_body]
fn json_parse(s: &str) -> (r: Result<serde_json::Value, serde_json::Error>)
    ensures
        match r {
            Ok(v) => json_doc(s@) == Some(json_of(v)),
            Err(_) => json_doc(s@) is None,
        },
{
    serde_json::from_str(s)
}

/// Relies on serde_json::Value::get with a string index: the member of
/// an object under this key; nothing when the value is no object or
/// lacks the key.
#[verifier::external_body]
fn json_get<'a>(v: &'a serde_json::Value, key: &str) -> (r: Option<&'a serde_json::Value>)
    ensures
        match r {
            Some(m) => obj_member(json_of(*v), key@) == Some(json_of(*m)),
            None => obj_member(json_of(*v), key@) is None,
        },
{
    v.get(key)
}

/// Relies on serde_json::Value::as_u64: the value as an unsigned
/// 64-bit integer, exactly when the parser read it as one.
#[verifier::external_body]
fn json_as_u64(v: &serde_json::Value) -> (r: Option<u64>)
    ensures
        match r {
            Some(n) => json_of(*v) == JsonVal::UInt(n),
            None => !(json_of(*v) is UInt),
        },
{
    v.as_u64()
}

/// Relies on serde_json::Value::as_str: the value's text, exactly when
/// it is a string (then copied, a conversion).
#[verifier::external_body]
fn json_as_string(v: &serde_json::Value) -> (r: Option<String>)
    ensures
        match r {
            Some(s) => json_of(*v) == JsonVal::Text(s@),
            None => !(json_of(*v) is Text),
        },
{
    v.as_str().map(|s| s.to_owned())
}

/// Relies on serde_json::Value::as_array: the value's elements,
/// exactly when it is an array.
#[verifier::external_body]
fn json_as_array<'a>(v: &'a serde_json::Value) -> (r: Option<&'a Vec<serde_json::Value>>)
    ensures
        match r {
            Some(a) => json_of(*v) == JsonVal::Arr(
                a@.map_values(|e: serde_json::Value| json_of(e)),
            ),
            None => !(json_of(*v) is Arr),
        },
{
    v.as_array()
}

/// The string member under `key`, or a parse error.
fn req_string(v: &serde_json::Value, key: &str) -> (r: Result<String, MiddlewareError>)
    ensures
        match r {
            Ok(s) => member_text(json_of(*v), key@) == Some(s@),
            Err(e) => e == MiddlewareError::Parse && member_text(json_of(*v), key@) is None,
        },
{
    match json_get(v, key) {
        Some(x) => match json_as_string(x) {
            Some(s) => Ok(s),
            None => Err(MiddlewareError::Parse),
        },
        None => Err(MiddlewareError::Parse),
    }
}

/// The unsigned member under `key`, or a parse error.
fn req_u64(v: &serde_json::Value, key: &str) -> (r: Result<u64, MiddlewareError>)
    ensures
        match r {
            Ok(n) => member_u64(json_of(*v), key@) == Some(n),
            Err(e) => e == MiddlewareError::Parse && member_u64(json_of(*v), key@) is None,
        },
{
    match json_get(v, key) {
        Some(x) => match json_as_u64(x) {
            Some(n) => Ok(n),
            None => Err(MiddlewareError::Parse),
        },
        None => Err(MiddlewareError::Parse),
    }
}

/// The string member under `key`, if present and a string.
fn opt_string(v: &serde_json::Value, key: &str) -> (r: Option<String>)
    ensures
        crate::chain::opt_str_view(r) == member_text(json_of(*v), key@),
{
    match json_get(v, key) {
        Some(x) => json_as_string(x),
        None => None,
    }
}

/// The key block a document spells: every field present with its type,
/// the version fitting 32 bits.
pub open spec fn key_block_of(j: JsonVal) -> Option<KeyBlockView> {
    match (
        member_u64(j, "height"@),
        member_text(j, "hash"@),
        member_text(j, "prev_hash"@),
        member_text(j, "prev_key_hash"@),
        member_text(j, "miner"@),
        member_text(j, "beneficiary"@),
        member_u64(j, "target"@),
        member_text(j, "pow"@),
        member_u64(j, "nonce"@),
        member_u64(j, "time"@),
        member_u64(j, "version"@),
    ) {
        (
            Some(height),
            Some(hash),
            Some(prev_hash),
            Some(prev_key_hash),
            Some(miner),
            Some(beneficiary),
            Some(target),
            Some(pow),
            Some(nonce),
            Some(time),
            Some(version),
        ) => if version <= u32::MAX {
            Some(
                KeyBlockView {
                    height,
                    hash,
                    prev_hash,
                    prev_key_hash,
                    miner,
                    beneficiary,
                    target,
                    pow,
                    nonce,
                    time,
                    version: version as u32,
                },
            )
        } else {
            None
        },
        _ => None,
    }
}

/// The transaction a document spells, at the generation height
/// `height`; the role-specific identifiers are optional.
pub open spec fn transaction_of(j: JsonVal, height: u64) -> Option<TransactionView> {
    match (member_text(j, "hash"@), member_text(j, "signatures"@), member_text(j, "tx_type"@)) {
        (Some(hash), Some(signatures), Some(tx_type)) => Some(
            TransactionView {
                hash,
                block_height: height,
                signatures,
                tx_type,
                sender_id: member_text(j, "sender_id"@),
                account_id: member_text(j, "account_id"@),
                recipient_id: member_text(j, "recipient_id"@),
                owner_id: member_text(j, "owner_id"@),
                contract_id: member_text(j, "contract_id"@),
                channel_id: member_text(j, "channel_id"@),
                query_id: member_text(j, "query_id"@),
            },
        ),
        _ => None,
    }
}

/// The transactions an array of documents spells, in order; nothing if
/// any element is malformed.
pub open spec fn txs_of(elems: Seq<JsonVal>, height: u64) -> Option<Seq<TransactionView>>
    decreases elems.len(),
{
    if elems.len() == 0 {
        Some(Seq::<TransactionView>::empty())
    } else {
        match (txs_of(elems.drop_last(), height), transaction_of(elems.last(), height)) {
            (Some(ts), Some(t)) => Some(ts.push(t)),
            _ => None,
        }
    }
}

/// The micro block a document spells under the key block `kb`: every
/// field present, the linkage hash naming `kb`, every transaction well
/// formed.
pub open spec fn micro_block_of(j: JsonVal, kb: KeyBlockView) -> Option<MicroBlockView> {
    match (
        member_text(j, "hash"@),
        member_text(j, "prev_hash"@),
        member_text(j, "prev_key_hash"@),
        member_text(j, "pof_hash"@),
        member_text(j, "signature"@),
        member_text(j, "state_hash"@),
        member_text(j, "txs_hash"@),
        member_u64(j, "time"@),
        member_u64(j, "version"@),
        obj_member(j, "transactions"@),
    ) {
        (
            Some(hash),
            Some(prev_hash),
            Some(prev_key_hash),
            Some(pof_hash),
            Some(signature),
            Some(state_hash),
            Some(txs_hash),
            Some(time),
            Some(version),
            Some(JsonVal::Arr(elems)),
        ) => if prev_key_hash == kb.hash && version <= u32::MAX {
            match txs_of(elems, kb.height) {
                Some(transactions) => Some(
                    MicroBlockView {
                        hash,
                        prev_hash,
                        prev_key_hash,
                        pof_hash,
                        signature,
                        state_hash,
                        txs_hash,
                        time,
                        version: version as u32,
                        transactions,
                    },
                ),
                None => None,
            }
        } else {
            None
        },
        _ => None,
    }
}

/// The micro blocks an array of documents spells, in order.
pub open spec fn micro_blocks_of(elems: Seq<JsonVal>, kb: KeyBlockView) -> Option<
    Seq<MicroBlockView>,
>
    decreases elems.len(),
{
    if elems.len() == 0 {
        Some(Seq::<MicroBlockView>::empty())
    } else {
        match (micro_blocks_of(elems.drop_last(), kb), micro_block_of(elems.last(), kb)) {
            (Some(ms), Some(m)) => Some(ms.push(m)),
            _ => None,
        }
    }
}

/// The generation a document spells at `height`: a key block at that
/// height and an array of micro blocks hanging off it.
pub open spec fn generation_of(j: JsonVal, height: u64) -> Option<GenerationView> {
    match (obj_member(j, "key_block"@), obj_member(j, "micro_blocks"@)) {
        (Some(kj), Some(JsonVal::Arr(elems))) => match key_block_of(kj) {
            Some(kb) => if kb.height == height {
                match micro_blocks_of(elems, kb) {
                    Some(micro_blocks) => Some(GenerationView { key_block: kb, micro_blocks }),
                    None => None,
                }
            } else {
                None
            },
            None => None,
        },
        _ => None,
    }
}

/// The chain tip a latest-key-block answer spells: the `key_block`
/// member if there is one, else the document itself, giving a height
/// and a hash.
pub open spec fn tip_of(j: JsonVal) -> Option<(u64, Seq<char>)> {
    let kj = match obj_member(j, "key_block"@) {
        Some(k) => k,
        None => j,
    };
    match (member_u64(kj, "height"@), member_text(kj, "hash"@)) {
        (Some(h), Some(t)) => Some((h, t)),
        _ => None,
    }
}

/// A malformed prefix spoils the whole transaction array.
proof fn lemma_txs_of_prefix_none(elems: Seq<JsonVal>, height: u64, k: int)
    requires
        0 <= k <= elems.len(),
        txs_of(elems.take(k), height) is None,
    ensures
        txs_of(elems, height) is None,
    decreases elems.len() - k,
{
    if k == elems.len() {
        assert(elems.take(k) =~= elems);
    } else {
        assert(elems.take(k + 1).drop_last() =~= elems.take(k));
        lemma_txs_of_prefix_none(elems, height, k + 1);
    }
}

/// A malformed prefix spoils the whole micro-block array.
proof fn lemma_micro_blocks_of_prefix_none(elems: Seq<JsonVal>, kb: KeyBlockView, k: int)
    requires
        0 <= k <= elems.len(),
        micro_blocks_of(elems.take(k), kb) is None,
    ensures
        micro_blocks_of(elems, kb) is None,
    decreases elems.len() - k,
{
    if k == elems.len() {
        assert(elems.take(k) =~= elems);
    } else {
        assert(elems.take(k + 1).drop_last() =~= elems.take(k));
        lemma_micro_blocks_of_prefix_none(elems, kb, k + 1);
    }
}

/// Decode a key-block object: `Ok` exactly on a document that spells a
/// key block, returning that key block.
fn key_block_from_value(v: &serde_json::Value) -> (r: Result<KeyBlock, MiddlewareError>)
    ensures
        match r {
            Ok(kb) => key_block_of(json_of(*v)) == Some(kb@),
            Err(e) => e == MiddlewareError::Parse && key_block_of(json_of(*v)) is None,
        },
{
    let height = req_u64(v, "height")?;
    let version = req_u64(v, "version")?;
    if version > u32::MAX as u64 {
        return Err(MiddlewareError::Parse);
    }
    let kb = KeyBlock {
        height,
        hash: req_string(v, "hash")?,
        prev_hash: req_string(v, "prev_hash")?,
        prev_key_hash: req_string(v, "prev_key_hash")?,
        miner: req_string(v, "miner")?,
        beneficiary: req_string(v, "beneficiary")?,
        target: req_u64(v, "target")?,
        pow: req_string(v, "pow")?,
        nonce: req_u64(v, "nonce")?,
        time: req_u64(v, "time")?,
        version: version as u32,
    };
    proof {
        assert(key_block_of(json_of(*v)) == Some(kb@));
    }
    Ok(kb)
}

/// Decode one transaction object of the generation at `height`: `Ok`
/// exactly on a document that spells a transaction, returning it.
fn transaction_from_value(v: &serde_json::Value, height: u64) -> (r: Result<
    Transaction,
    MiddlewareError,
>)
    ensures
        match r {
            Ok(t) => transaction_of(json_of(*v), height) == Some(t@) && t@.block_height == height,
            Err(e) => e == MiddlewareError::Parse && transaction_of(json_of(*v), height) is None,
        },
{
    let t = Transaction {
        hash: req_string(v, "hash")?,
        block_height: height,
        signatures: req_string(v, "signatures")?,
        tx_type: req_string(v, "tx_type")?,
        sender_id: opt_string(v, "sender_id"),
        account_id: opt_string(v, "account_id"),
        recipient_id: opt_string(v, "recipient_id"),
        owner_id: opt_string(v, "owner_id"),
        contract_id: opt_string(v, "contract_id"),
        channel_id: opt_string(v, "channel_id"),
        query_id: opt_string(v, "query_id"),
    };
    proof {
        assert(transaction_of(json_of(*v), height) == Some(t@));
    }
    Ok(t)
}

/// Decode one micro-block object belonging to the key block `kb`: `Ok`
/// exactly on a document that spells a micro block hanging off `kb`,
/// returning it.
fn micro_block_from_value(v: &serde_json::Value, kb: &KeyBlock) -> (r: Result<
    MicroBlock,
    MiddlewareError,
>)
    ensures
        match r {
            Ok(m) => micro_block_of(json_of(*v), kb@) == Some(m@) && m@.wf_in(kb@),
            Err(e) => e == MiddlewareError::Parse && micro_block_of(json_of(*v), kb@) is None,
        },
{
    let prev_key_hash = req_string(v, "prev_key_hash")?;
    if !string_eq(&prev_key_hash, &kb.hash) {
        // a micro block that does not hang off its key block is a
        // malformed generation payload
        return Err(MiddlewareError::Parse);
    }
    let version = req_u64(v, "version")?;
    if version > u32::MAX as u64 {
        return Err(MiddlewareError::Parse);
    }
    let tx_values = match json_get(v, "transactions") {
        Some(x) => match json_as_array(x) {
            Some(a) => a,
            None => {
                return Err(MiddlewareError::Parse);
            },
        },
        None => {
            return Err(MiddlewareError::Parse);
        },
    };
    let ghost elems = tx_values@.map_values(|e: serde_json::Value| json_of(e));
    let mut transactions: Vec<Transaction> = Vec::new();
    let mut i: usize = 0;
    while i < tx_values.len()
        invariant
            i <= tx_values@.len(),
            elems == tx_values@.map_values(|e: serde_json::Value| json_of(e)),
            elems.len() == tx_values@.len(),
            member_text(json_of(*v), "prev_key_hash"@) == Some(prev_key_hash@),
            prev_key_hash@ == kb@.hash,
            member_u64(json_of(*v), "version"@) == Some(version),
            version <= u32::MAX,
            obj_member(json_of(*v), "transactions"@) == Some(JsonVal::Arr(elems)),
            txs_of(elems.take(i as int), kb.height) matches Some(ts) && ts.len()
                == transactions@.len() && forall|k: int|
                0 <= k < ts.len() ==> ts[k] == (#[trigger] transactions@[k])@,
            forall|k: int|
                0 <= k < transactions@.len() ==> (#[trigger] transactions@[k])@.block_height
                    == kb@.height,
        decreases tx_values@.len() - i,
    {
        proof {
            assert(elems[i as int] == json_of(tx_values@[i as int]));
            assert(elems.take(i + 1).drop_last() =~= elems.take(i as int));
            assert(elems.take(i + 1).last() == elems[i as int]);
        }
        match transaction_from_value(&tx_values[i], kb.height) {
            Ok(t) => {
                transactions.push(t);
            },
            Err(e) => {
                proof {
                    lemma_txs_of_prefix_none(elems, kb.height, i + 1);
                }
                return Err(e);
            },
        }
        i = i + 1;
    }
    proof {
        assert(elems.take(elems.len() as int) =~= elems);
    }
    let m = MicroBlock {
        hash: req_string(v, "hash")?,
        prev_hash: req_string(v, "prev_hash")?,
        prev_key_hash,
        pof_hash: req_string(v, "pof_hash")?,
        signature: req_string(v, "signature")?,
        state_hash: req_string(v, "state_hash")?,
        txs_hash: req_string(v, "txs_hash")?,
        time: req_u64(v, "time")?,
        version: version as u32,
        transactions,
    };
    proof {
        assert(m@.transactions =~= txs_of(elems, kb.height)->0);
        assert(micro_block_of(json_of(*v), kb@) == Some(m@));
        assert forall|k: int|
            0 <= k < m@.transactions.len() implies (#[trigger] m@.transactions[k]).block_height
            == kb@.height by {
            assert(m@.transactions[k] == m.transactions@[k]@);
        }
    }
    Ok(m)
}

/// Decode the generation the node reports at `height`.
///
/// `Ok` exactly on a document that spells a well-formed generation at
/// the requested height — every micro block naming this key block,
/// every transaction carrying this height — and the result is that
/// document's content, ready for the store. Everything else is a parse
/// error.
pub fn generation_from_value(v: &serde_json::Value, height: u64) -> (r: Result<
    Generation,
    MiddlewareError,
>)
    ensures
        match r {
            Ok(g) => generation_of(json_of(*v), height) == Some(g@) && g@.wf()
                && g@.key_block.height == height,
            Err(e) => e == MiddlewareError::Parse && generation_of(json_of(*v), height) is None,
        },
{
    let kb_value = match json_get(v, "key_block") {
        Some(x) => x,
        None => {
            return Err(MiddlewareError::Parse);
        },
    };
    let kb = key_block_from_value(kb_value)?;
    if kb.height != height {
        // an answer about some other height is a malformed answer
        return Err(MiddlewareError::Parse);
    }
    let mb_values = match json_get(v, "micro_blocks") {
        Some(x) => match json_as_array(x) {
            Some(a) => a,
            None => {
                return Err(MiddlewareError::Parse);
            },
        },
        None => {
            return Err(MiddlewareError::Parse);
        },
    };
    let ghost elems = mb_values@.map_values(|e: serde_json::Value| json_of(e));
    let mut micro_blocks: Vec<MicroBlock> = Vec::new();
    let mut i: usize = 0;
    while i < mb_values.len()
        invariant
            i <= mb_values@.len(),
            elems == mb_values@.map_values(|e: serde_json::Value| json_of(e)),
            elems.len() == mb_values@.len(),
            obj_member(json_of(*v), "key_block"@) == Some(json_of(*kb_value)),
            key_block_of(json_of(*kb_value)) == Some(kb@),
            kb@.height == height,
            obj_member(json_of(*v), "micro_blocks"@) == Some(JsonVal::Arr(elems)),
            micro_blocks_of(elems.take(i as int), kb@) matches Some(ms) && ms.len()
                == micro_blocks@.len() && forall|k: int|
                0 <= k < ms.len() ==> ms[k] == (#[trigger] micro_blocks@[k])@,
            forall|k: int| 0 <= k < micro_blocks@.len() ==> (#[trigger] micro_blocks@[k])@.wf_in(
                kb@,
            ),
        decreases mb_values@.len() - i,
    {
        proof {
            assert(elems[i as int] == json_of(mb_values@[i as int]));
            assert(elems.take(i + 1).drop_last() =~= elems.take(i as int));
            assert(elems.take(i + 1).last() == elems[i as int]);
        }
        match micro_block_from_value(&mb_values[i], &kb) {
            Ok(m) => {
                micro_blocks.push(m);
            },
            Err(e) => {
                proof {
                    lemma_micro_blocks_of_prefix_none(elems, kb@, i + 1);
                }
                return Err(e);
            },
        }
        i = i + 1;
    }
    proof {
        assert(elems.take(elems.len() as int) =~= elems);
    }
    let g = Generation { key_block: kb, micro_blocks };
    proof {
        assert(g@.micro_blocks =~= micro_blocks_of(elems, g@.key_block)->0);
        assert(generation_of(json_of(*v), height) == Some(g@));
        assert forall|k: int|
            0 <= k < g@.micro_blocks.len() implies (#[trigger] g@.micro_blocks[k]).wf_in(
            g@.key_block,
        ) by {
            assert(g@.micro_blocks[k] == g.micro_blocks@[k]@);
        }
    }
    Ok(g)
}

/// Decode a generation from the raw body the node answered with: `Ok`
/// exactly on a JSON body that spells a well-formed generation at the
/// requested height, returning that generation.
pub fn generation_from_json(body: &str, height: u64) -> (r: Result<Generation, MiddlewareError>)
    ensures
        match r {
            Ok(g) => (match json_doc(body@) {
                Some(j) => generation_of(j, height) == Some(g@),
                None => false,
            }) && g@.wf() && g@.key_block.height == height,
            Err(e) => e == MiddlewareError::Parse && (match json_doc(body@) {
                Some(j) => generation_of(j, height) is None,
                None => true,
            }),
        },
{
    match json_parse(body) {
        Ok(v) => generation_from_value(&v, height),
        Err(_) => Err(MiddlewareError::Parse),
    }
}

/// Decode the chain tip from the node's latest-key-block answer:
/// `{"height": ..., "hash": ...}`, possibly wrapped in a `key_block`
/// member. `Ok` exactly on a JSON body that spells such a tip,
/// returning its height and hash.
pub fn key_block_from_json(body: &str) -> (r: Result<(u64, String), MiddlewareError>)
    ensures
        match r {
            Ok(p) => (match json_doc(body@) {
                Some(j) => tip_of(j) == Some((p.0, p.1@)),
                None => false,
            }),
            Err(e) => e == MiddlewareError::Parse && (match json_doc(body@) {
                Some(j) => tip_of(j) is None,
                None => true,
            }),
        },
{
    let v = match json_parse(body) {
        Ok(v) => v,
        Err(_) => {
            return Err(MiddlewareError::Parse);
        },
    };
    let kb_value = match json_get(&v, "key_block") {
        Some(x) => x,
        None => &v,
    };
    let height = req_u64(kb_value, "height")?;
    let hash = req_string(kb_value, "hash")?;
    Ok((height, hash))
}

} // verus!
