//! From a feed update to the fee summaries of the predicted blocks.

use vstd::prelude::*;
use crate::amount::UNITS_PER_COIN;
use crate::amount::coins_of;
use crate::amount::lemma_coins_of_is_quotient;
use crate::amount::to_coins;
use crate::binary64::Binary64;
use crate::json::Json;
use crate::json::json_of;
use crate::json::jsons_of;

verus! {

/// The lowest and the highest fee rate of a predicted block.
#[derive(Clone, Copy, Debug, PartialEq, Eq, Structural)]
pub struct FeeRange {
    pub min: Binary64,
    pub max: Binary64,
}

/// The fee summary of one predicted block.
#[derive(Clone, Copy, Debug, PartialEq, Eq, Structural)]
pub struct MempoolBlockInfo {
    /// The place of the block's entry in the update: 0 is the next block.
    pub index: usize,
    /// The median fee rate.
    pub median_fee: Binary64,
    /// The bounds of the fee rates.
    pub fee_range: FeeRange,
    /// The sum of the fees, in coins.
    pub total_fees: Binary64,
    /// The number of transactions.
    pub n_tx: u64,
}

/// The member of an update that lists the predicted blocks.
pub open spec fn blocks_key() -> Seq<char> {
    "mempool-blocks"@
}

pub open spec fn median_fee_key() -> Seq<char> {
    "medianFee"@
}

pub open spec fn fee_range_key() -> Seq<char> {
    "feeRange"@
}

pub open spec fn total_fees_key() -> Seq<char> {
    "totalFees"@
}

pub open spec fn transaction_count_key() -> Seq<char> {
    "nTx"@
}

/// A document read as a binary64 number; positive zero where it is none.
pub open spec fn number_or_zero(value: Json) -> Binary64 {
    match value.binary64() {
        Some(x) => x,
        None => Binary64 { bits: 0 },
    }
}

/// A document read as an unsigned integer; zero where it is none.
pub open spec fn count_or_zero(value: Json) -> u64 {
    match value.unsigned() {
        Some(n) => n,
        None => 0,
    }
}

/// The fee range that a document gives: its first and its last element, each
/// read as a number. Zero stands in for whatever cannot be read: both bounds
/// where the document is not an array or is empty, a bound whose element is
/// not a number.
pub open spec fn fee_range_of(value: Json) -> FeeRange {
    match value.elements() {
        Some(items) => if items.len() == 0 {
            FeeRange { min: Binary64 { bits: 0 }, max: Binary64 { bits: 0 } }
        } else {
            FeeRange { min: number_or_zero(items.first()), max: number_or_zero(items.last()) }
        },
        None => FeeRange { min: Binary64 { bits: 0 }, max: Binary64 { bits: 0 } },
    }
}

/// Whether an entry has all four members that a summary is made from.
pub open spec fn is_complete(entry: Json) -> bool {
    &&& entry.member(median_fee_key()) is Some
    &&& entry.member(fee_range_key()) is Some
    &&& entry.member(total_fees_key()) is Some
    &&& entry.member(transaction_count_key()) is Some
}

/// The summary of a complete entry that stands at place `index`.
pub open spec fn summary_of(entry: Json, index: usize) -> MempoolBlockInfo {
    MempoolBlockInfo {
        index,
        median_fee: number_or_zero(entry.member(median_fee_key())->0),
        fee_range: fee_range_of(entry.member(fee_range_key())->0),
        total_fees: coins_of(number_or_zero(entry.member(total_fees_key())->0)),
        n_tx: count_or_zero(entry.member(transaction_count_key())->0),
    }
}

/// The summaries of the complete entries among `entries`, in their order.
/// Each carries the place of its entry among all entries.
pub open spec fn summaries_of(entries: Seq<Json>) -> Seq<MempoolBlockInfo>
    decreases entries.len(),
{
    if entries.len() == 0 {
        Seq::empty()
    } else {
        let before = summaries_of(entries.drop_last());
        if is_complete(entries.last()) {
            before.push(summary_of(entries.last(), (entries.len() - 1) as usize))
        } else {
            before
        }
    }
}

/// Whether an update has the list of predicted blocks: a member under
/// `blocks_key` that is an array.
pub open spec fn lists_blocks(update: Json) -> bool {
    update.member(blocks_key()) matches Some(Json::Array(_))
}

/// What an update says of the predicted blocks: the summaries of the entries
/// listed under `blocks_key`, and nothing where the update has no such member
/// or the member is not an array.
pub open spec fn decode(update: Json) -> Seq<MempoolBlockInfo> {
    match update.member(blocks_key()) {
        Some(Json::Array(entries)) => summaries_of(entries),
        _ => Seq::empty(),
    }
}

/// Reads a document as a binary64 number, with positive zero for a document
/// that is none.
fn read_number(value: &serde_json::Value) -> (r: Binary64)
    ensures
        r == number_or_zero(json_of(*value)),
{
    match crate::json::as_binary64(value) {
        Some(x) => x,
        None => Binary64::zero(),
    }
}

/// Reads the fee range out of the document found under `fee_range_key`.
fn read_fee_range(value: &serde_json::Value) -> (r: FeeRange)
    ensures
        r == fee_range_of(json_of(*value)),
{
    match crate::json::as_array(value) {
        Some(items) => {
            if items.len() == 0 {
                FeeRange { min: Binary64::zero(), max: Binary64::zero() }
            } else {
                let min = read_number(&items[0]);
                let max = read_number(&items[items.len() - 1]);
                FeeRange { min, max }
            }
        },
        None => FeeRange { min: Binary64::zero(), max: Binary64::zero() },
    }
}

/// Reads one entry of the list of predicted blocks. Gives no summary for an
/// entry that lacks one of the four members.
fn read_entry(entry: &serde_json::Value, index: usize) -> (r: Option<MempoolBlockInfo>)
    ensures
        r == (if is_complete(json_of(*entry)) {
            Some(summary_of(json_of(*entry), index))
        } else {
            None
        }),
{
    let median_fee = crate::json::get(entry, "medianFee");
    let fee_range = crate::json::get(entry, "feeRange");
    let total_fees = crate::json::get(entry, "totalFees");
    let n_tx = crate::json::get(entry, "nTx");
    match (median_fee, fee_range, total_fees, n_tx) {
        (Some(median_fee), Some(fee_range), Some(total_fees), Some(n_tx)) => {
            let count: u64 = match crate::json::as_u64(n_tx) {
                Some(n) => n,
                None => 0,
            };
            Some(
                MempoolBlockInfo {
                    index,
                    median_fee: read_number(median_fee),
                    fee_range: read_fee_range(fee_range),
                    total_fees: to_coins(read_number(total_fees)),
                    n_tx: count,
                },
            )
        },
        _ => None,
    }
}

/// Decodes a feed update.
///
/// Gives the summaries of the predicted blocks that the update lists, in the
/// update's order, and leaves out every entry that lacks a member. An update
/// without the list gives no summary.
pub fn process_mempool_blocks(data: &serde_json::Value) -> (result: Vec<MempoolBlockInfo>)
    ensures
        result@ == decode(json_of(*data)),
        !lists_blocks(json_of(*data)) ==> result@.len() == 0,
{
    let mut result: Vec<MempoolBlockInfo> = Vec::new();
    if let Some(mempool_blocks) = crate::json::get(data, "mempool-blocks") {
        if let Some(blocks) = crate::json::as_array(mempool_blocks) {
            let ghost entries = jsons_of(blocks@);
            let mut i: usize = 0;
            while i < blocks.len()
                invariant
                    i <= blocks.len(),
                    entries == jsons_of(blocks@),
                    result@ == summaries_of(entries.take(i as int)),
                decreases blocks.len() - i,
            {
                proof {
                    let upto = entries.take(i + 1);
                    assert(upto.drop_last() == entries.take(i as int));
                    assert(upto.last() == json_of(blocks@[i as int]));
                }
                if let Some(block) = read_entry(&blocks[i], i) {
                    result.push(block);
                }
                i = i + 1;
            }
            proof {
                assert(entries.take(i as int) == entries);
            }
        }
    }
    result
}

/// An update without the list of predicted blocks, be it that the member is
/// missing or that it is not an array, decodes to no summary at all.
pub proof fn lemma_no_list_no_summaries(update: Json)
    requires
        !lists_blocks(update),
    ensures
        decode(update) == Seq::<MempoolBlockInfo>::empty(),
{
}

/// Decoding keeps exactly the complete entries, each on its own and in place.
///
/// Every summary comes from a complete entry, carries that entry's place and
/// depends on nothing but the entry and its place; the summaries stand in the
/// order of their entries; every complete entry has its summary; and no
/// summary carries the place of an entry that lacks a member.
pub proof fn lemma_summaries_follow_entries(entries: Seq<Json>)
    requires
        entries.len() <= usize::MAX,
    ensures
        summaries_of(entries).len() <= entries.len(),
        forall|j: int|
            0 <= j < summaries_of(entries).len() ==> {
                let s = #[trigger] summaries_of(entries)[j];
                &&& s.index < entries.len()
                &&& is_complete(entries[s.index as int])
                &&& s == summary_of(entries[s.index as int], s.index)
            },
        forall|j: int, k: int|
            0 <= j < k < summaries_of(entries).len() ==> (#[trigger] summaries_of(entries)[j]).index
                < (#[trigger] summaries_of(entries)[k]).index,
        forall|i: int|
            0 <= i < entries.len() && is_complete(#[trigger] entries[i]) ==> exists|j: int|
                0 <= j < summaries_of(entries).len() && (#[trigger] summaries_of(entries)[j]).index
                    == i,
        forall|i: int, j: int|
            0 <= i < entries.len() && !is_complete(#[trigger] entries[i]) && 0 <= j
                < summaries_of(entries).len() ==> (#[trigger] summaries_of(entries)[j]).index != i,
    decreases entries.len(),
{
    if entries.len() > 0 {
        let front = entries.drop_last();
        let last = (entries.len() - 1) as int;
        let out = summaries_of(entries);
        let before = summaries_of(front);
        lemma_summaries_follow_entries(front);
        assert forall|j: int| 0 <= j < before.len() implies (#[trigger] before[j]).index < last
            && entries[before[j].index as int] == front[before[j].index as int] by {}
        if is_complete(entries.last()) {
            assert(out == before.push(summary_of(entries.last(), last as usize)));
            assert(out[before.len() as int].index == last);
            assert forall|i: int| 0 <= i < entries.len() && is_complete(
                #[trigger] entries[i],
            ) implies exists|j: int|
                0 <= j < out.len() && (#[trigger] out[j]).index == i by {
                if i < last {
                    assert(is_complete(front[i]));
                    let j = choose|j: int| 0 <= j < before.len() && (#[trigger] before[j]).index == i;
                    assert(out[j].index == i);
                } else {
                    assert(out[before.len() as int].index == i);
                }
            }
        } else {
            assert(out == before);
            assert forall|i: int| 0 <= i < entries.len() && is_complete(
                #[trigger] entries[i],
            ) implies exists|j: int|
                0 <= j < out.len() && (#[trigger] out[j]).index == i by {
                assert(is_complete(front[i]));
                let j = choose|j: int| 0 <= j < before.len() && (#[trigger] before[j]).index == i;
                assert(out[j].index == i);
            }
        }
    }
}

/// Where every entry is complete, every entry has its summary and each
/// summary stands at the place that its index names.
pub proof fn lemma_complete_entries_stay_in_place(entries: Seq<Json>)
    requires
        entries.len() <= usize::MAX,
        forall|i: int| 0 <= i < entries.len() ==> is_complete(#[trigger] entries[i]),
    ensures
        summaries_of(entries).len() == entries.len(),
        forall|i: int|
            0 <= i < entries.len() ==> (#[trigger] summaries_of(entries)[i]).index == i,
    decreases entries.len(),
{
    if entries.len() > 0 {
        let front = entries.drop_last();
        assert forall|i: int| 0 <= i < front.len() implies is_complete(#[trigger] front[i]) by {
            assert(front[i] == entries[i]);
        }
        lemma_complete_entries_stay_in_place(front);
    }
}

/// The total of a summary is the entry's total divided by `UNITS_PER_COIN`:
/// the binary64 number nearest to the exact quotient, with the sign kept. An
/// infinite total stays infinite, and one that is no number stays none.
pub proof fn lemma_total_fees_are_in_coins(entry: Json, index: usize)
    ensures
        ({
            let total = number_or_zero(entry.member(total_fees_key())->0);
            let coins = summary_of(entry, index).total_fees;
            &&& total.is_finite() ==> coins.is_quotient_of(total, UNITS_PER_COIN as nat)
            &&& total.is_infinite() ==> coins == total
            &&& total.is_nan() ==> coins.is_nan()
        }),
{
    let total = number_or_zero(entry.member(total_fees_key())->0);
    if total.is_finite() {
        lemma_coins_of_is_quotient(total);
    }
}

} // verus!
