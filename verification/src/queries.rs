//! Pure helpers behind the read API.
//!
//! The read API itself — HTTP routes and the relational engine — is an
//! external collaborator; what belongs here is the arithmetic it must
//! get right. Queries take their parameters as values (never spliced
//! into query text), so pagination reduces to computing an offset and
//! a limit.

use vstd::prelude::*;

use crate::chain::Generation;
use crate::chain::MicroBlockView;
use crate::chain::TransactionView;

verus! {

/// The row offset a page request asks for: pages count from one, each
/// `limit` rows long. Without a limit everything is returned from the
/// start; without a page, or with the first page, the offset is zero.
pub open spec fn spec_offset(limit: Option<u32>, page: Option<u32>) -> int {
    match (limit, page) {
        (Some(l), Some(p)) => if p > 1 {
            (p - 1) * l
        } else {
            0
        },
        _ => 0,
    }
}

/// Turn optional `limit` and `page` query parameters into a row offset
/// and a row cap, for a parameterized query.
pub fn offset_limit(limit: Option<u32>, page: Option<u32>) -> (r: (u64, Option<u64>))
    ensures
        r.0 == spec_offset(limit, page),
        r.1 == (match limit {
            Some(l) => Some(l as u64),
            None => None::<u64>,
        }),
{
    match limit {
        None => (0, None),
        Some(l) => {
            let off: u64 = match page {
                None => 0,
                Some(p) => if p > 1 {
                    proof {
                        assert((p - 1) * (l as int) <= u64::MAX) by (nonlinear_arith)
                            requires
                                1 < p <= u32::MAX,
                                l <= u32::MAX,
                        {}
                    }
                    (p as u64 - 1) * (l as u64)
                } else {
                    0
                },
            };
            (off, Some(l as u64))
        },
    }
}

/// The contract identifiers carried by a run of transactions, in
/// order, one per transaction that names one.
pub open spec fn contract_ids_of_txs(ts: Seq<TransactionView>) -> Seq<Seq<char>>
    decreases ts.len(),
{
    if ts.len() == 0 {
        Seq::<Seq<char>>::empty()
    } else {
        contract_ids_of_txs(ts.drop_last()) + (match ts.last().contract_id {
            Some(c) => seq![c],
            None => Seq::<Seq<char>>::empty(),
        })
    }
}

/// The channel identifiers carried by a run of transactions.
pub open spec fn channel_ids_of_txs(ts: Seq<TransactionView>) -> Seq<Seq<char>>
    decreases ts.len(),
{
    if ts.len() == 0 {
        Seq::<Seq<char>>::empty()
    } else {
        channel_ids_of_txs(ts.drop_last()) + (match ts.last().channel_id {
            Some(c) => seq![c],
            None => Seq::<Seq<char>>::empty(),
        })
    }
}

/// The contract identifiers across a generation's micro blocks: the
/// derived index that backs contract lookups.
pub open spec fn contract_ids_of(g: crate::chain::GenerationView) -> Seq<Seq<char>>
    decreases g.micro_blocks.len(),
{
    contract_ids_of_micros(g.micro_blocks)
}

pub open spec fn contract_ids_of_micros(mbs: Seq<MicroBlockView>) -> Seq<Seq<char>>
    decreases mbs.len(),
{
    if mbs.len() == 0 {
        Seq::<Seq<char>>::empty()
    } else {
        contract_ids_of_micros(mbs.drop_last()) + contract_ids_of_txs(mbs.last().transactions)
    }
}

/// The channel identifiers across a generation's micro blocks.
pub open spec fn channel_ids_of(g: crate::chain::GenerationView) -> Seq<Seq<char>> {
    channel_ids_of_micros(g.micro_blocks)
}

pub open spec fn channel_ids_of_micros(mbs: Seq<MicroBlockView>) -> Seq<Seq<char>>
    decreases mbs.len(),
{
    if mbs.len() == 0 {
        Seq::<Seq<char>>::empty()
    } else {
        channel_ids_of_micros(mbs.drop_last()) + channel_ids_of_txs(mbs.last().transactions)
    }
}

/// Walk a generation once and collect both derived indices: every
/// contract identifier and every channel identifier its transactions
/// name, each in transaction order. These indices exist to speed up
/// the read API's lookups; deriving them from the rows keeps them
/// consistent with the transactions by construction.
pub fn derived_identifiers(g: &Generation) -> (r: (Vec<String>, Vec<String>))
    ensures
        r.0@.map_values(|s: String| s@) == contract_ids_of(g@),
        r.1@.map_values(|s: String| s@) == channel_ids_of(g@),
{
    let mut contracts: Vec<String> = Vec::new();
    let mut channels: Vec<String> = Vec::new();
    let ghost mbs = g@.micro_blocks;
    let mut i: usize = 0;
    while i < g.micro_blocks.len()
        invariant
            i <= g.micro_blocks@.len(),
            mbs == g@.micro_blocks,
            mbs.len() == g.micro_blocks@.len(),
            contracts@.map_values(|s: String| s@) =~= contract_ids_of_micros(mbs.take(i as int)),
            channels@.map_values(|s: String| s@) =~= channel_ids_of_micros(mbs.take(i as int)),
        decreases g.micro_blocks@.len() - i,
    {
        let mb = &g.micro_blocks[i];
        let ghost txs = mbs[i as int].transactions;
        proof {
            assert(mbs[i as int] == g.micro_blocks@[i as int]@);
        }
        let mut j: usize = 0;
        while j < mb.transactions.len()
            invariant
                j <= mb.transactions@.len(),
                mbs == g@.micro_blocks,
                i < mbs.len(),
                mbs[i as int] == mb@,
                txs == mbs[i as int].transactions,
                txs.len() == mb.transactions@.len(),
                contracts@.map_values(|s: String| s@) =~= contract_ids_of_micros(
                    mbs.take(i as int),
                ) + contract_ids_of_txs(txs.take(j as int)),
                channels@.map_values(|s: String| s@) =~= channel_ids_of_micros(mbs.take(i as int))
                    + channel_ids_of_txs(txs.take(j as int)),
            decreases mb.transactions@.len() - j,
        {
            proof {
                assert(txs[j as int] == mb.transactions@[j as int]@);
                assert(txs.take(j + 1).drop_last() =~= txs.take(j as int));
                assert(txs.take(j + 1).last() == txs[j as int]);
            }
            let t = &mb.transactions[j];
            let ghost c0 = contracts@;
            let ghost k0 = channels@;
            match &t.contract_id {
                Some(c) => contracts.push(c.clone()),
                None => {},
            }
            match &t.channel_id {
                Some(c) => channels.push(c.clone()),
                None => {},
            }
            proof {
                assert(contracts@.map_values(|s: String| s@) =~= c0.map_values(|s: String| s@)
                    + (match txs[j as int].contract_id {
                    Some(c) => seq![c],
                    None => Seq::<Seq<char>>::empty(),
                }));
                assert(channels@.map_values(|s: String| s@) =~= k0.map_values(|s: String| s@)
                    + (match txs[j as int].channel_id {
                    Some(c) => seq![c],
                    None => Seq::<Seq<char>>::empty(),
                }));
                assert(contracts@.map_values(|s: String| s@) =~= contract_ids_of_micros(
                    mbs.take(i as int),
                ) + contract_ids_of_txs(txs.take(j + 1)));
                assert(channels@.map_values(|s: String| s@) =~= channel_ids_of_micros(
                    mbs.take(i as int),
                ) + channel_ids_of_txs(txs.take(j + 1)));
            }
            j = j + 1;
        }
        proof {
            assert(txs.take(txs.len() as int) =~= txs);
            assert(mbs.take(i + 1).drop_last() =~= mbs.take(i as int));
            assert(mbs.take(i + 1).last() == mbs[i as int]);
        }
        i = i + 1;
    }
    proof {
        assert(mbs.take(mbs.len() as int) =~= mbs);
    }
    (contracts, channels)
}

} // verus!
