//! The alert rule: does one of the nearest predicted blocks have a lowest fee
//! rate under the threshold?

use vstd::prelude::*;
use crate::binary64::Binary64;
use crate::decoder::MempoolBlockInfo;

verus! {

/// What the caller asks to be alerted of.
#[derive(Clone, Copy, Debug, PartialEq, Eq, Structural)]
pub struct AlertConfig {
    /// The fee rate under which a block's lowest fee rate raises the alert.
    pub threshold_fee_rate: Binary64,
    /// How many of the leading summaries are looked at.
    pub window_size: usize,
}

/// The outcome of the rule on one update.
#[derive(Debug)]
pub struct AlertDecision {
    /// Whether to alert.
    pub alert: bool,
    /// The summaries that gave rise to it, in their order.
    pub qualifying: Vec<MempoolBlockInfo>,
}

/// Whether a block's lowest fee rate is under the threshold.
pub open spec fn is_below(block: MempoolBlockInfo, threshold: Binary64) -> bool {
    block.fee_range.min.less_than(threshold)
}

/// The test `is_below` against a fixed threshold.
pub open spec fn below(threshold: Binary64) -> spec_fn(MempoolBlockInfo) -> bool {
    |block: MempoolBlockInfo| is_below(block, threshold)
}

/// The summaries that the rule looks at: the first `window` of them, or all
/// where there are fewer.
pub open spec fn watched(blocks: Seq<MempoolBlockInfo>, window: nat) -> Seq<MempoolBlockInfo> {
    if window < blocks.len() {
        blocks.take(window as int)
    } else {
        blocks
    }
}

/// The watched summaries whose lowest fee rate is under the threshold.
pub open spec fn qualifying_blocks(
    blocks: Seq<MempoolBlockInfo>,
    threshold: Binary64,
    window: nat,
) -> Seq<MempoolBlockInfo> {
    watched(blocks, window).filter(below(threshold))
}

/// Whether the rule alerts: some watched summary has its lowest fee rate
/// under the threshold.
pub open spec fn should_alert(
    blocks: Seq<MempoolBlockInfo>,
    threshold: Binary64,
    window: nat,
) -> bool {
    exists|i: int|
        0 <= i < watched(blocks, window).len() && is_below(
            #[trigger] watched(blocks, window)[i],
            threshold,
        )
}

impl AlertDecision {
    /// Whether this is what the rule gives for the summaries `blocks` under
    /// `config`.
    pub open spec fn is_outcome_of(self, blocks: Seq<MempoolBlockInfo>, config: AlertConfig) -> bool {
        &&& self.qualifying@ == qualifying_blocks(
            blocks,
            config.threshold_fee_rate,
            config.window_size as nat,
        )
        &&& self.alert == should_alert(blocks, config.threshold_fee_rate, config.window_size as nat)
    }
}

/// A filtered sequence is non-empty exactly when some element passes.
proof fn lemma_filter_nonempty(s: Seq<MempoolBlockInfo>, threshold: Binary64)
    ensures
        s.filter(below(threshold)).len() > 0 <==> exists|i: int|
            0 <= i < s.len() && is_below(#[trigger] s[i], threshold),
    decreases s.len(),
{
    reveal(Seq::filter);
    if s.len() > 0 {
        let front = s.drop_last();
        lemma_filter_nonempty(front, threshold);
        if is_below(s.last(), threshold) {
            assert(is_below(s[s.len() - 1], threshold));
        } else if exists|i: int| 0 <= i < s.len() && is_below(#[trigger] s[i], threshold) {
            let i = choose|i: int| 0 <= i < s.len() && is_below(#[trigger] s[i], threshold);
            assert(is_below(front[i], threshold));
        } else if exists|i: int| 0 <= i < front.len() && is_below(#[trigger] front[i], threshold) {
            let i = choose|i: int| 0 <= i < front.len() && is_below(#[trigger] front[i], threshold);
            assert(is_below(s[i], threshold));
        }
    }
}

/// Applies the alert rule to the summaries of one update.
///
/// Looks at the first `window_size` summaries, or at all where there are
/// fewer, and at no other. Alerts if the lowest fee rate of one of them is
/// under the threshold, and reports those of which it is.
pub fn evaluate_alert(blocks: &Vec<MempoolBlockInfo>, config: &AlertConfig) -> (decision:
    AlertDecision)
    ensures
        decision.is_outcome_of(blocks@, *config),
        decision.alert == (decision.qualifying@.len() > 0),
        decision.qualifying@.len() <= config.window_size,
{
    let threshold = config.threshold_fee_rate;
    let limit: usize = if config.window_size < blocks.len() {
        config.window_size
    } else {
        blocks.len()
    };
    let ghost seen = watched(blocks@, config.window_size as nat);
    let mut qualifying: Vec<MempoolBlockInfo> = Vec::new();
    let mut i: usize = 0;
    while i < limit
        invariant
            i <= limit <= blocks.len(),
            seen == blocks@.take(limit as int),
            qualifying@ == seen.take(i as int).filter(below(threshold)),
            qualifying@.len() <= i,
        decreases limit - i,
    {
        proof {
            reveal(Seq::filter);
            let upto = seen.take(i + 1);
            assert(upto.drop_last() == seen.take(i as int));
            assert(upto.last() == blocks@[i as int]);
        }
        let block = blocks[i];
        if block.fee_range.min.lt(&threshold) {
            qualifying.push(block);
        }
        i = i + 1;
    }
    proof {
        assert(seen.take(i as int) == seen);
        lemma_filter_nonempty(seen, threshold);
    }
    AlertDecision { alert: qualifying.len() > 0, qualifying }
}

/// Whether `block` stands at place `i` of `s`.
pub open spec fn stands_at(s: Seq<MempoolBlockInfo>, i: int, block: MempoolBlockInfo) -> bool {
    0 <= i < s.len() && s[i] == block
}

/// Every element of a filtered sequence passes the test and comes from the
/// sequence that was filtered.
proof fn lemma_filter_source(s: Seq<MempoolBlockInfo>, threshold: Binary64)
    ensures
        s.filter(below(threshold)).len() <= s.len(),
        forall|j: int|
            0 <= j < s.filter(below(threshold)).len() ==> is_below(
                #[trigger] s.filter(below(threshold))[j],
                threshold,
            ) && exists|i: int| #[trigger] stands_at(s, i, s.filter(below(threshold))[j]),
    decreases s.len(),
{
    reveal(Seq::filter);
    if s.len() > 0 {
        let front = s.drop_last();
        let out = s.filter(below(threshold));
        let before = front.filter(below(threshold));
        lemma_filter_source(front, threshold);
        assert forall|j: int| 0 <= j < out.len() implies is_below(#[trigger] out[j], threshold)
            && exists|i: int| #[trigger] stands_at(s, i, out[j]) by {
            if j < before.len() {
                assert(out[j] == before[j]);
                let i = choose|i: int| #[trigger] stands_at(front, i, before[j]);
                assert(stands_at(s, i, out[j]));
            } else {
                assert(stands_at(s, s.len() - 1, out[j]));
            }
        }
    }
}

/// The rule gives one outcome for one input: two decisions on the same
/// summaries under the same configuration agree, in whether to alert and in
/// the summaries they report.
pub proof fn lemma_same_input_same_decision(
    first: AlertDecision,
    second: AlertDecision,
    blocks: Seq<MempoolBlockInfo>,
    config: AlertConfig,
)
    requires
        first.is_outcome_of(blocks, config),
        second.is_outcome_of(blocks, config),
    ensures
        first.alert == second.alert,
        first.qualifying@ == second.qualifying@,
{
}

/// The rule reports at most `window` summaries, each of them one of the first
/// `window` summaries with its lowest fee rate under the threshold, and it
/// alerts exactly when it reports one.
pub proof fn lemma_qualifying_within_window(
    blocks: Seq<MempoolBlockInfo>,
    threshold: Binary64,
    window: nat,
)
    ensures
        qualifying_blocks(blocks, threshold, window).len() <= window,
        forall|j: int|
            0 <= j < qualifying_blocks(blocks, threshold, window).len() ==> is_below(
                #[trigger] qualifying_blocks(blocks, threshold, window)[j],
                threshold,
            ) && exists|i: int|
                i < window && #[trigger] stands_at(
                    blocks,
                    i,
                    qualifying_blocks(blocks, threshold, window)[j],
                ),
        should_alert(blocks, threshold, window) <==> qualifying_blocks(
            blocks,
            threshold,
            window,
        ).len() > 0,
{
    let seen = watched(blocks, window);
    let out = qualifying_blocks(blocks, threshold, window);
    lemma_filter_source(seen, threshold);
    lemma_filter_nonempty(seen, threshold);
    assert forall|j: int| 0 <= j < out.len() implies is_below(#[trigger] out[j], threshold)
        && exists|i: int| i < window && #[trigger] stands_at(blocks, i, out[j]) by {
        let i = choose|i: int| #[trigger] stands_at(seen, i, out[j]);
        assert(stands_at(blocks, i, out[j]));
    }
}

/// What stands behind the window has no part in the outcome: two sequences
/// of summaries that agree in their first `window` places give the same
/// decision.
pub proof fn lemma_beyond_window_ignored(
    one: Seq<MempoolBlockInfo>,
    other: Seq<MempoolBlockInfo>,
    threshold: Binary64,
    window: nat,
)
    requires
        one.len() < window || other.len() < window ==> one.len() == other.len(),
        forall|i: int|
            0 <= i < window && i < one.len() && i < other.len() ==> #[trigger] one[i] == other[i],
    ensures
        qualifying_blocks(one, threshold, window) == qualifying_blocks(other, threshold, window),
        should_alert(one, threshold, window) == should_alert(other, threshold, window),
{
    assert(watched(one, window) =~= watched(other, window));
}

/// Where every summary carries its own place as its index, as it does when
/// no entry of the update was left out, no reported summary has an index of
/// `window` or more.
pub proof fn lemma_qualifying_index_within_window(
    blocks: Seq<MempoolBlockInfo>,
    threshold: Binary64,
    window: nat,
)
    requires
        forall|i: int| 0 <= i < blocks.len() ==> (#[trigger] blocks[i]).index == i,
    ensures
        forall|j: int|
            0 <= j < qualifying_blocks(blocks, threshold, window).len() ==> (#[trigger] qualifying_blocks(
                blocks,
                threshold,
                window,
            )[j]).index < window,
{
    let out = qualifying_blocks(blocks, threshold, window);
    lemma_qualifying_within_window(blocks, threshold, window);
    assert forall|j: int| 0 <= j < out.len() implies (#[trigger] out[j]).index < window by {
        let i = choose|i: int| i < window && #[trigger] stands_at(blocks, i, out[j]);
        assert(blocks[i].index == i);
    }
}

} // verus!
