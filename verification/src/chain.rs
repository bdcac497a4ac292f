//! The chain data model: key blocks, micro blocks and transactions.
//!
//! A generation is one key block together with every micro block produced
//! before the next key block; each micro block carries its transactions.
//! Nesting the rows this way makes the ownership part of the schema hold
//! by construction: every micro block belongs to exactly one key block and
//! every transaction to exactly one micro block. The remaining structural
//! invariants — the hash linkage from a micro block to its key block and
//! the denormalized height on each transaction — are stated by
//! [`GenerationView::wf`] and checked at ingestion.

use vstd::prelude::*;

verus! {

/// The block that establishes a new chain height.
#[derive(Debug)]
pub struct KeyBlock {
    /// The height this block establishes; unique in the store.
    pub height: u64,
    /// The canonical identity of "the block at this height"; it changes
    /// across a reorg.
    pub hash: String,
    pub prev_hash: String,
    pub prev_key_hash: String,
    pub miner: String,
    pub beneficiary: String,
    pub target: u64,
    /// Proof-of-work data, as the node reports it.
    pub pow: String,
    pub nonce: u64,
    pub time: u64,
    pub version: u32,
}

/// The mathematical value of a [`KeyBlock`].
#[verifier::ext_equal]
pub ghost struct KeyBlockView {
    pub height: u64,
    pub hash: Seq<char>,
    pub prev_hash: Seq<char>,
    pub prev_key_hash: Seq<char>,
    pub miner: Seq<char>,
    pub beneficiary: Seq<char>,
    pub target: u64,
    pub pow: Seq<char>,
    pub nonce: u64,
    pub time: u64,
    pub version: u32,
}

impl View for KeyBlock {
    type V = KeyBlockView;

    open spec fn view(&self) -> KeyBlockView {
        KeyBlockView {
            height: self.height,
            hash: self.hash@,
            prev_hash: self.prev_hash@,
            prev_key_hash: self.prev_key_hash@,
            miner: self.miner@,
            beneficiary: self.beneficiary@,
            target: self.target,
            pow: self.pow@,
            nonce: self.nonce,
            time: self.time,
            version: self.version,
        }
    }
}

/// One transaction, with the role-specific identifiers of its
/// semi-structured payload pulled out as optional fields.
#[derive(Debug)]
pub struct Transaction {
    pub hash: String,
    /// The height of the owning generation, denormalized for range
    /// queries; must equal the key block's height.
    pub block_height: u64,
    pub signatures: String,
    pub tx_type: String,
    pub sender_id: Option<String>,
    pub account_id: Option<String>,
    pub recipient_id: Option<String>,
    pub owner_id: Option<String>,
    pub contract_id: Option<String>,
    pub channel_id: Option<String>,
    pub query_id: Option<String>,
}

/// The mathematical value of a [`Transaction`].
#[verifier::ext_equal]
pub ghost struct TransactionView {
    pub hash: Seq<char>,
    pub block_height: u64,
    pub signatures: Seq<char>,
    pub tx_type: Seq<char>,
    pub sender_id: Option<Seq<char>>,
    pub account_id: Option<Seq<char>>,
    pub recipient_id: Option<Seq<char>>,
    pub owner_id: Option<Seq<char>>,
    pub contract_id: Option<Seq<char>>,
    pub channel_id: Option<Seq<char>>,
    pub query_id: Option<Seq<char>>,
}

/// The value of an optional string field.
pub open spec fn opt_str_view(o: Option<String>) -> Option<Seq<char>> {
    match o {
        Some(s) => Some(s@),
        None => None,
    }
}

impl View for Transaction {
    type V = TransactionView;

    open spec fn view(&self) -> TransactionView {
        TransactionView {
            hash: self.hash@,
            block_height: self.block_height,
            signatures: self.signatures@,
            tx_type: self.tx_type@,
            sender_id: opt_str_view(self.sender_id),
            account_id: opt_str_view(self.account_id),
            recipient_id: opt_str_view(self.recipient_id),
            owner_id: opt_str_view(self.owner_id),
            contract_id: opt_str_view(self.contract_id),
            channel_id: opt_str_view(self.channel_id),
            query_id: opt_str_view(self.query_id),
        }
    }
}

/// An intermediate, hash-chained block within a generation, carrying the
/// generation's transactions.
#[derive(Debug)]
pub struct MicroBlock {
    pub hash: String,
    pub prev_hash: String,
    /// Must equal the owning key block's hash: the structural invariant
    /// checked at ingestion and by the audit pass.
    pub prev_key_hash: String,
    pub pof_hash: String,
    pub signature: String,
    pub state_hash: String,
    pub txs_hash: String,
    pub time: u64,
    pub version: u32,
    pub transactions: Vec<Transaction>,
}

/// The mathematical value of a [`MicroBlock`].
#[verifier::ext_equal]
pub ghost struct MicroBlockView {
    pub hash: Seq<char>,
    pub prev_hash: Seq<char>,
    pub prev_key_hash: Seq<char>,
    pub pof_hash: Seq<char>,
    pub signature: Seq<char>,
    pub state_hash: Seq<char>,
    pub txs_hash: Seq<char>,
    pub time: u64,
    pub version: u32,
    pub transactions: Seq<TransactionView>,
}

impl View for MicroBlock {
    type V = MicroBlockView;

    open spec fn view(&self) -> MicroBlockView {
        MicroBlockView {
            hash: self.hash@,
            prev_hash: self.prev_hash@,
            prev_key_hash: self.prev_key_hash@,
            pof_hash: self.pof_hash@,
            signature: self.signature@,
            state_hash: self.state_hash@,
            txs_hash: self.txs_hash@,
            time: self.time,
            version: self.version,
            transactions: self.transactions@.map_values(|t: Transaction| t@),
        }
    }
}

/// One key block plus all micro blocks produced before the next key
/// block, as fetched from the node or as stored.
#[derive(Debug)]
pub struct Generation {
    pub key_block: KeyBlock,
    pub micro_blocks: Vec<MicroBlock>,
}

/// The mathematical value of a [`Generation`].
#[verifier::ext_equal]
pub ghost struct GenerationView {
    pub key_block: KeyBlockView,
    pub micro_blocks: Seq<MicroBlockView>,
}

impl View for Generation {
    type V = GenerationView;

    open spec fn view(&self) -> GenerationView {
        GenerationView {
            key_block: self.key_block@,
            micro_blocks: self.micro_blocks@.map_values(|m: MicroBlock| m@),
        }
    }
}

impl MicroBlockView {
    /// The micro block hangs off the key block `kb` correctly: its
    /// `prev_key_hash` names `kb`, and each of its transactions carries
    /// the generation's height.
    pub open spec fn wf_in(&self, kb: KeyBlockView) -> bool {
        &&& self.prev_key_hash == kb.hash
        &&& forall|i: int|
            0 <= i < self.transactions.len() ==> (#[trigger] self.transactions[i]).block_height
                == kb.height
    }
}

impl GenerationView {
    /// The structural invariant of one generation's rows.
    pub open spec fn wf(&self) -> bool {
        forall|i: int|
            0 <= i < self.micro_blocks.len() ==> (#[trigger] self.micro_blocks[i]).wf_in(
                self.key_block,
            )
    }
}

impl Transaction {
    /// A value-preserving copy.
    pub fn duplicate(&self) -> (t: Transaction)
        ensures
            t@ == self@,
    {
        Transaction {
            hash: self.hash.clone(),
            block_height: self.block_height,
            signatures: self.signatures.clone(),
            tx_type: self.tx_type.clone(),
            sender_id: dup_opt(&self.sender_id),
            account_id: dup_opt(&self.account_id),
            recipient_id: dup_opt(&self.recipient_id),
            owner_id: dup_opt(&self.owner_id),
            contract_id: dup_opt(&self.contract_id),
            channel_id: dup_opt(&self.channel_id),
            query_id: dup_opt(&self.query_id),
        }
    }
}

/// Whether two hashes (or any two strings) spell the same characters.
pub fn string_eq(a: &String, b: &String) -> (r: bool)
    ensures
        r == (a@ == b@),
{
    a.eq(b)
}

/// A value-preserving copy of an optional string.
fn dup_opt(o: &Option<String>) -> (r: Option<String>)
    ensures
        opt_str_view(r) == opt_str_view(*o),
{
    match o {
        Some(s) => Some(s.clone()),
        None => None,
    }
}

impl MicroBlock {
    /// A value-preserving copy.
    pub fn duplicate(&self) -> (m: MicroBlock)
        ensures
            m@ == self@,
    {
        let mut txs: Vec<Transaction> = Vec::new();
        let mut i: usize = 0;
        while i < self.transactions.len()
            invariant
                i <= self.transactions@.len(),
                txs@.len() == i,
                forall|k: int| 0 <= k < i ==> (#[trigger] txs@[k])@ == self.transactions@[k]@,
            decreases self.transactions@.len() - i,
        {
            txs.push(self.transactions[i].duplicate());
            i = i + 1;
        }
        let m = MicroBlock {
            hash: self.hash.clone(),
            prev_hash: self.prev_hash.clone(),
            prev_key_hash: self.prev_key_hash.clone(),
            pof_hash: self.pof_hash.clone(),
            signature: self.signature.clone(),
            state_hash: self.state_hash.clone(),
            txs_hash: self.txs_hash.clone(),
            time: self.time,
            version: self.version,
            transactions: txs,
        };
        proof {
            assert(m@ =~= self@);
        }
        m
    }
}

impl KeyBlock {
    /// A value-preserving copy.
    pub fn duplicate(&self) -> (k: KeyBlock)
        ensures
            k@ == self@,
    {
        KeyBlock {
            height: self.height,
            hash: self.hash.clone(),
            prev_hash: self.prev_hash.clone(),
            prev_key_hash: self.prev_key_hash.clone(),
            miner: self.miner.clone(),
            beneficiary: self.beneficiary.clone(),
            target: self.target,
            pow: self.pow.clone(),
            nonce: self.nonce,
            time: self.time,
            version: self.version,
        }
    }
}

impl Generation {
    /// A value-preserving copy.
    pub fn duplicate(&self) -> (g: Generation)
        ensures
            g@ == self@,
    {
        let mut mbs: Vec<MicroBlock> = Vec::new();
        let mut i: usize = 0;
        while i < self.micro_blocks.len()
            invariant
                i <= self.micro_blocks@.len(),
                mbs@.len() == i,
                forall|k: int| 0 <= k < i ==> (#[trigger] mbs@[k])@ == self.micro_blocks@[k]@,
            decreases self.micro_blocks@.len() - i,
        {
            mbs.push(self.micro_blocks[i].duplicate());
            i = i + 1;
        }
        let g = Generation {
            key_block: self.key_block.duplicate(),
            micro_blocks: mbs,
        };
        proof {
            assert(g@ =~= self@);
        }
        g
    }

    /// Whether this generation satisfies the structural invariant: every
    /// micro block names this key block as its parent and every
    /// transaction carries this generation's height.
    pub fn check_structure(&self) -> (b: bool)
        ensures
            b == self@.wf(),
    {
        let mut i: usize = 0;
        let mut ok = true;
        while i < self.micro_blocks.len()
            invariant
                i <= self.micro_blocks@.len(),
                ok == forall|k: int|
                    0 <= k < i ==> (#[trigger] self@.micro_blocks[k]).wf_in(self@.key_block),
            decreases self.micro_blocks@.len() - i,
        {
            let mb = &self.micro_blocks[i];
            let mut mb_ok = mb.prev_key_hash == self.key_block.hash;
            let mut j: usize = 0;
            while j < mb.transactions.len()
                invariant
                    j <= mb.transactions@.len(),
                    mb_ok == (mb@.prev_key_hash == self.key_block@.hash && forall|t: int|
                        0 <= t < j ==> (#[trigger] mb@.transactions[t]).block_height
                            == self.key_block@.height),
                decreases mb.transactions@.len() - j,
            {
                proof {
                    assert(mb@.transactions[j as int] == mb.transactions@[j as int]@);
                }
                if mb.transactions[j].block_height != self.key_block.height {
                    mb_ok = false;
                }
                j = j + 1;
            }
            proof {
                assert(mb_ok == mb@.wf_in(self@.key_block));
                assert(self@.micro_blocks[i as int] == mb@);
            }
            if !mb_ok {
                ok = false;
            }
            i = i + 1;
        }
        ok
    }
}

} // verus!
