//! Coin selection: which outputs pay for an amount and its fee.

use vstd::prelude::*;
use vstd::string::*;
use crate::error::ErrorKind;
use crate::keychain::Identifier;
use crate::types::{OutputData, eligible};
use crate::wallet::FeeSchedule;

verus! {

/// In which order spendable outputs are taken.
#[derive(Clone, Copy, PartialEq, Eq, Structural, Debug)]
pub enum SelectionStrategy {
    /// The smallest single output that covers the target; where no single
    /// output does, the smallest outputs until the target is covered.
    Smallest,
    /// The biggest outputs until the target is covered.
    Biggest,
    /// All spendable outputs, the biggest first where there are more than
    /// the limit admits.
    All,
}

/// The strategy that a name stands for: `"all"`, `"biggest"`, and
/// `Smallest` for every other name.
pub open spec fn strategy_of(name: Seq<char>) -> SelectionStrategy {
    if name == "all"@ {
        SelectionStrategy::All
    } else if name == "biggest"@ {
        SelectionStrategy::Biggest
    } else {
        SelectionStrategy::Smallest
    }
}

/// Whose outputs are looked at, and how deep they must be confirmed.
pub struct CoinQuery {
    pub parent_key_id: Identifier,
    pub current_height: u64,
    pub minimum_confirmations: u64,
}

/// Whether an output can be selected: it belongs to the account, is
/// unspent, not locked, mature, and confirmed deeply enough.
pub open spec fn spendable(o: OutputData, q: CoinQuery) -> bool {
    o.root_key_id == q.parent_key_id && eligible(o, q.current_height, q.minimum_confirmations)
}

/// Whether a strategy takes small outputs first.
pub open spec fn ascending(strategy: SelectionStrategy) -> bool {
    strategy == SelectionStrategy::Smallest
}

/// Whether the output at `i` is taken before the one at `j`: by value, and
/// by position among outputs of one value.
pub open spec fn precedes(outputs: Seq<OutputData>, ascending: bool, i: int, j: int) -> bool {
    if outputs[i].value == outputs[j].value {
        i < j
    } else if ascending {
        outputs[i].value < outputs[j].value
    } else {
        outputs[i].value > outputs[j].value
    }
}

/// The sum of the values of the outputs at the given positions.
pub open spec fn total_value(outputs: Seq<OutputData>, picks: Seq<int>) -> int
    decreases picks.len(),
{
    if picks.len() == 0 {
        0
    } else {
        total_value(outputs, picks.drop_last()) + outputs[picks.last()].value
    }
}

/// Whether `picks` holds the first spendable outputs in the order of the
/// strategy: each is spendable, they come in order, and every spendable
/// output that is not among them comes after all of them.
pub open spec fn leading(
    outputs: Seq<OutputData>,
    q: CoinQuery,
    ascending: bool,
    picks: Seq<int>,
) -> bool {
    &&& forall|k: int|
        0 <= k < picks.len() ==> 0 <= (#[trigger] picks[k]) < outputs.len() && spendable(
            outputs[picks[k]],
            q,
        )
    &&& forall|k: int, l: int|
        0 <= k < l < picks.len()
            ==> precedes(outputs, ascending, #[trigger] picks[k], #[trigger] picks[l])
    &&& forall|j: int, k: int|
        0 <= j < outputs.len() && spendable(#[trigger] outputs[j], q) && !picks.contains(j) && 0
            <= k < picks.len() ==> precedes(outputs, ascending, #[trigger] picks[k], j)
}

/// Whether every spendable output is among `picks`.
pub open spec fn exhausted(outputs: Seq<OutputData>, q: CoinQuery, picks: Seq<int>) -> bool {
    forall|j: int|
        0 <= j < outputs.len() && spendable(#[trigger] outputs[j], q) ==> picks.contains(j)
}

/// Whether some single spendable output covers the target.
pub open spec fn has_cover(outputs: Seq<OutputData>, q: CoinQuery, target: int) -> bool {
    exists|i: int|
        0 <= i < outputs.len() && spendable(#[trigger] outputs[i], q) && outputs[i].value >= target
}

/// Whether the output at `i` is the smallest spendable output that covers
/// the target.
pub open spec fn smallest_cover(
    outputs: Seq<OutputData>,
    q: CoinQuery,
    target: int,
    i: int,
) -> bool {
    &&& 0 <= i < outputs.len()
    &&& spendable(outputs[i], q)
    &&& outputs[i].value >= target
    &&& forall|j: int|
        0 <= j < outputs.len() && j != i && spendable(#[trigger] outputs[j], q)
            && outputs[j].value >= target ==> precedes(outputs, true, i, j)
}

/// Whether `picks` covers the target and would not without its last output.
pub open spec fn minimal_cover(outputs: Seq<OutputData>, target: int, picks: Seq<int>) -> bool {
    &&& total_value(outputs, picks) >= target
    &&& picks.len() > 0 ==> total_value(outputs, picks.drop_last()) < target
}

/// Whether the strategy takes a single output for the target.
pub open spec fn takes_single(
    outputs: Seq<OutputData>,
    q: CoinQuery,
    strategy: SelectionStrategy,
    max_outputs: usize,
    target: int,
) -> bool {
    strategy == SelectionStrategy::Smallest && max_outputs >= 1 && target > 0 && has_cover(
        outputs,
        q,
        target,
    )
}

/// Whether `picks` is what the strategy selects for the target.
pub open spec fn is_selection(
    outputs: Seq<OutputData>,
    q: CoinQuery,
    strategy: SelectionStrategy,
    max_outputs: usize,
    target: int,
    picks: Seq<int>,
) -> bool {
    if takes_single(outputs, q, strategy, max_outputs, target) {
        picks.len() == 1 && smallest_cover(outputs, q, target, picks[0])
    } else {
        &&& leading(outputs, q, ascending(strategy), picks)
        &&& picks.len() <= max_outputs
        &&& if strategy == SelectionStrategy::All {
            total_value(outputs, picks) >= target && (picks.len() == max_outputs || exhausted(
                outputs,
                q,
                picks,
            ))
        } else {
            minimal_cover(outputs, target, picks)
        }
    }
}

/// Whether `picks` is the most that the strategy can take within the limit,
/// and falls short of the target.
pub open spec fn is_shortfall(
    outputs: Seq<OutputData>,
    q: CoinQuery,
    strategy: SelectionStrategy,
    max_outputs: usize,
    target: int,
    picks: Seq<int>,
) -> bool {
    &&& !takes_single(outputs, q, strategy, max_outputs, target)
    &&& leading(outputs, q, ascending(strategy), picks)
    &&& picks.len() <= max_outputs
    &&& picks.len() == max_outputs || exhausted(outputs, q, picks)
    &&& total_value(outputs, picks) < target
}

/// The positions as mathematical integers.
pub open spec fn pick_positions(v: Seq<usize>) -> Seq<int> {
    v.map_values(|i: usize| i as int)
}

/// The fee of a transaction that creates `num_outputs` outputs.
pub open spec fn fee_for(schedule: FeeSchedule, num_outputs: int) -> int {
    schedule.base_fee + schedule.output_fee * num_outputs
}

/// The number of change outputs that a transaction gets: at least one.
pub open spec fn change_count(num_change_outputs: usize) -> int {
    if num_change_outputs == 0 {
        1
    } else {
        num_change_outputs as int
    }
}

/// The fee of a transaction with one payment output and the given number of
/// change outputs.
pub open spec fn send_fee(schedule: FeeSchedule, num_change_outputs: usize) -> int {
    fee_for(schedule, 1 + change_count(num_change_outputs))
}

/// The greatest 64-bit value that is not above `x`.
pub open spec fn saturated(x: int) -> u64 {
    if x > u64::MAX {
        u64::MAX
    } else if x < 0 {
        0
    } else {
        x as u64
    }
}

/// The inputs of a transaction and what they pay for.
#[derive(PartialEq, Eq, Debug)]
pub struct CoinSelection {
    /// The positions of the selected outputs in the wallet.
    pub positions: Vec<usize>,
    /// The sum of the values of the selected outputs.
    pub total: u64,
    /// The amount that changes hands.
    pub amount: u64,
    pub fee: u64,
}

/// What `select_coins_and_fee` gives for what stands in a wallet.
pub open spec fn selection_result(
    outputs: Seq<OutputData>,
    schedule: FeeSchedule,
    amount: u64,
    q: CoinQuery,
    max_outputs: usize,
    num_change_outputs: usize,
    strategy: SelectionStrategy,
    r: Result<CoinSelection, ErrorKind>,
) -> bool {
    let fee = send_fee(schedule, num_change_outputs);
    match r {
        Ok(sel) => {
            &&& sel.fee == fee
            &&& sel.amount == amount
            &&& sel.total == total_value(outputs, pick_positions(sel.positions@))
            &&& is_selection(
                outputs,
                q,
                strategy,
                max_outputs,
                amount + fee,
                pick_positions(sel.positions@),
            )
        },
        Err(ErrorKind::NotEnoughFunds { available, needed }) => {
            &&& fee <= u64::MAX
            &&& needed == saturated(amount + fee)
            &&& exists|picks: Seq<int>|
                #![auto]
                is_shortfall(outputs, q, strategy, max_outputs, amount + fee, picks) && available
                    == saturated(total_value(outputs, picks))
        },
        Err(ErrorKind::AmountOverflow) => {
            ||| fee > u64::MAX
            ||| exists|picks: Seq<int>|
                #![auto]
                is_selection(outputs, q, strategy, max_outputs, amount + fee, picks)
                    && total_value(outputs, picks) > u64::MAX
        },
        Err(_) => false,
    }
}

pub(crate) proof fn lemma_total_value_push(outputs: Seq<OutputData>, picks: Seq<int>, i: int)
    ensures
        total_value(outputs, picks.push(i)) == total_value(outputs, picks) + outputs[i].value,
{
    assert(picks.push(i).drop_last() =~= picks);
}

pub(crate) proof fn lemma_total_value_nonneg(outputs: Seq<OutputData>, picks: Seq<int>)
    ensures
        0 <= total_value(outputs, picks),
    decreases picks.len(),
{
    if picks.len() > 0 {
        lemma_total_value_nonneg(outputs, picks.drop_last());
    }
}

/// The value of a selection is at most the number of its outputs times the
/// greatest value that 64 bits hold.
proof fn lemma_total_value_bound(outputs: Seq<OutputData>, picks: Seq<int>)
    ensures
        0 <= total_value(outputs, picks) <= picks.len() * 0xffff_ffff_ffff_ffff,
    decreases picks.len(),
{
    if picks.len() > 0 {
        lemma_total_value_bound(outputs, picks.drop_last());
        assert((picks.len() - 1) * 0xffff_ffff_ffff_ffff + 0xffff_ffff_ffff_ffff == picks.len()
            * 0xffff_ffff_ffff_ffff) by (nonlinear_arith);
    }
}

impl SelectionStrategy {
    /// The strategy that a name stands for.
    pub fn parse(name: &String) -> (s: SelectionStrategy)
        ensures
            s == strategy_of(name@),
    {
        if *name == String::from_str("all") {
            SelectionStrategy::All
        } else if *name == String::from_str("biggest") {
            SelectionStrategy::Biggest
        } else {
            SelectionStrategy::Smallest
        }
    }
}

fn is_spendable(
    o: &OutputData,
    parent_key_id: &Identifier,
    current_height: u64,
    minimum_confirmations: u64,
) -> (ok: bool)
    ensures
        ok == spendable(
            *o,
            CoinQuery { parent_key_id: *parent_key_id, current_height, minimum_confirmations },
        ),
{
    o.root_key_id == *parent_key_id && o.eligible_to_spend(current_height, minimum_confirmations)
}

fn comes_before(outputs: &Vec<OutputData>, asc: bool, i: usize, j: usize) -> (ok: bool)
    requires
        i < outputs.len(),
        j < outputs.len(),
    ensures
        ok == precedes(outputs@, asc, i as int, j as int),
{
    if outputs[i].value == outputs[j].value {
        i < j
    } else if asc {
        outputs[i].value < outputs[j].value
    } else {
        outputs[i].value > outputs[j].value
    }
}

/// The smallest spendable output that covers the target, if there is one.
fn find_smallest_cover(
    outputs: &Vec<OutputData>,
    parent_key_id: &Identifier,
    current_height: u64,
    minimum_confirmations: u64,
    target: u128,
) -> (found: Option<usize>)
    ensures
        ({
            let q = CoinQuery {
                parent_key_id: *parent_key_id,
                current_height,
                minimum_confirmations,
            };
            match found {
                Some(i) => smallest_cover(outputs@, q, target as int, i as int),
                None => !has_cover(outputs@, q, target as int),
            }
        }),
{
    let ghost q = CoinQuery {
        parent_key_id: *parent_key_id,
        current_height,
        minimum_confirmations,
    };
    let mut best: Option<usize> = None;
    let mut i: usize = 0;
    while i < outputs.len()
        invariant
            i <= outputs.len(),
            q == (CoinQuery {
                parent_key_id: *parent_key_id,
                current_height,
                minimum_confirmations,
            }),
            match best {
                Some(b) => {
                    &&& b < i
                    &&& spendable(outputs@[b as int], q)
                    &&& outputs@[b as int].value >= target
                    &&& forall|j: int|
                        0 <= j < i && j != b && spendable(#[trigger] outputs@[j], q)
                            && outputs@[j].value >= target ==> precedes(
                            outputs@,
                            true,
                            b as int,
                            j,
                        )
                },
                None => forall|j: int|
                    0 <= j < i ==> !(spendable(#[trigger] outputs@[j], q) && outputs@[j].value
                        >= target),
            },
        decreases outputs.len() - i,
    {
        if is_spendable(&outputs[i], parent_key_id, current_height, minimum_confirmations)
            && outputs[i].value as u128 >= target {
            match best {
                Some(b) => {
                    if comes_before(outputs, true, i, b) {
                        best = Some(i);
                    }
                },
                None => {
                    best = Some(i);
                },
            }
        }
        i = i + 1;
    }
    best
}

/// The spendable output that is not picked yet and comes before all others
/// of that kind, if there is one.
fn find_next(
    outputs: &Vec<OutputData>,
    picked: &Vec<bool>,
    parent_key_id: &Identifier,
    current_height: u64,
    minimum_confirmations: u64,
    asc: bool,
) -> (found: Option<usize>)
    requires
        picked.len() == outputs.len(),
    ensures
        ({
            let q = CoinQuery {
                parent_key_id: *parent_key_id,
                current_height,
                minimum_confirmations,
            };
            match found {
                Some(b) => {
                    &&& b < outputs.len()
                    &&& spendable(outputs@[b as int], q)
                    &&& !picked@[b as int]
                    &&& forall|j: int|
                        0 <= j < outputs.len() && j != b && spendable(#[trigger] outputs@[j], q)
                            && !picked@[j] ==> precedes(outputs@, asc, b as int, j)
                },
                None => forall|j: int|
                    0 <= j < outputs.len() && spendable(#[trigger] outputs@[j], q) ==> picked@[j],
            }
        }),
{
    let ghost q = CoinQuery {
        parent_key_id: *parent_key_id,
        current_height,
        minimum_confirmations,
    };
    let mut best: Option<usize> = None;
    let mut i: usize = 0;
    while i < outputs.len()
        invariant
            i <= outputs.len(),
            picked.len() == outputs.len(),
            q == (CoinQuery {
                parent_key_id: *parent_key_id,
                current_height,
                minimum_confirmations,
            }),
            match best {
                Some(b) => {
                    &&& b < i
                    &&& spendable(outputs@[b as int], q)
                    &&& !picked@[b as int]
                    &&& forall|j: int|
                        0 <= j < i && j != b && spendable(#[trigger] outputs@[j], q) && !picked@[j]
                            ==> precedes(outputs@, asc, b as int, j)
                },
                None => forall|j: int|
                    0 <= j < i && spendable(#[trigger] outputs@[j], q) ==> picked@[j],
            },
        decreases outputs.len() - i,
    {
        if !picked[i] && is_spendable(
            &outputs[i],
            parent_key_id,
            current_height,
            minimum_confirmations,
        ) {
            match best {
                Some(b) => {
                    if comes_before(outputs, asc, i, b) {
                        best = Some(i);
                    }
                },
                None => {
                    best = Some(i);
                },
            }
        }
        i = i + 1;
    }
    best
}

/// Selects the outputs that pay for `target`, which is the amount and the
/// fee together. Gives their positions in the order in which they were
/// taken, or, where the outputs fall short, the positions of the most that
/// the strategy can take within the limit.
pub fn select_coins(
    outputs: &Vec<OutputData>,
    target: u128,
    current_height: u64,
    minimum_confirmations: u64,
    max_outputs: usize,
    strategy: SelectionStrategy,
    parent_key_id: &Identifier,
) -> (r: Result<Vec<usize>, Vec<usize>>)
    ensures
        ({
            let q = CoinQuery {
                parent_key_id: *parent_key_id,
                current_height,
                minimum_confirmations,
            };
            match r {
                Ok(picks) => is_selection(
                    outputs@,
                    q,
                    strategy,
                    max_outputs,
                    target as int,
                    pick_positions(picks@),
                ),
                Err(picks) => is_shortfall(
                    outputs@,
                    q,
                    strategy,
                    max_outputs,
                    target as int,
                    pick_positions(picks@),
                ),
            }
        }),
{
    let ghost q = CoinQuery {
        parent_key_id: *parent_key_id,
        current_height,
        minimum_confirmations,
    };
    let asc = strategy == SelectionStrategy::Smallest;
    if strategy == SelectionStrategy::Smallest && max_outputs >= 1 && target > 0 {
        match find_smallest_cover(
            outputs,
            parent_key_id,
            current_height,
            minimum_confirmations,
            target,
        ) {
            Some(i) => {
                let mut single: Vec<usize> = Vec::new();
                single.push(i);
                assert(pick_positions(single@)[0] == i as int);
                return Ok(single);
            },
            None => {},
        }
    }
    let mut picked: Vec<bool> = Vec::new();
    let mut n: usize = 0;
    while n < outputs.len()
        invariant
            n <= outputs.len(),
            picked.len() == n,
            forall|j: int| 0 <= j < n ==> !(#[trigger] picked@[j]),
        decreases outputs.len() - n,
    {
        picked.push(false);
        n = n + 1;
    }
    let mut picks: Vec<usize> = Vec::new();
    let mut total: u128 = 0;
    let mut done = false;
    assert(pick_positions(picks@) =~= Seq::<int>::empty());
    while !done && picks.len() < max_outputs && (strategy == SelectionStrategy::All || total
        < target)
        invariant
            picked.len() == outputs.len(),
            picks.len() <= max_outputs,
            q == (CoinQuery {
                parent_key_id: *parent_key_id,
                current_height,
                minimum_confirmations,
            }),
            asc == ascending(strategy),
            forall|j: int|
                0 <= j < outputs.len() ==> ((#[trigger] picked@[j]) <==> pick_positions(
                    picks@,
                ).contains(j)),
            leading(outputs@, q, asc, pick_positions(picks@)),
            total == total_value(outputs@, pick_positions(picks@)),
            strategy != SelectionStrategy::All && picks.len() > 0 ==> total_value(
                outputs@,
                pick_positions(picks@).drop_last(),
            ) < target,
            done ==> exhausted(outputs@, q, pick_positions(picks@)),
        decreases (if done { 0int } else { 1int }), max_outputs - picks.len(),
    {
        let ghost before = pick_positions(picks@);
        match find_next(
            outputs,
            &picked,
            parent_key_id,
            current_height,
            minimum_confirmations,
            asc,
        ) {
            Some(b) => {
                proof {
                    lemma_total_value_push(outputs@, before, b as int);
                    lemma_total_value_bound(outputs@, before);
                    assert(before.len() * 0xffff_ffff_ffff_ffff <= 0xffff_ffff_ffff_ffff
                        * 0xffff_ffff_ffff_ffff) by (nonlinear_arith)
                        requires
                            0 <= before.len() <= 0xffff_ffff_ffff_ffff,
                    ;
                    assert(!before.contains(b as int));
                }
                picked.set(b, true);
                picks.push(b);
                total = total + outputs[b].value as u128;
                proof {
                    let after = pick_positions(picks@);
                    assert(after =~= before.push(b as int));
                    assert(after.drop_last() =~= before);
                    assert forall|j: int| 0 <= j < outputs.len() implies ((#[trigger] picked@[j])
                        <==> after.contains(j)) by {
                        if j == b {
                            assert(after[after.len() - 1] == j);
                        } else if before.contains(j) {
                            let k = choose|k: int| 0 <= k < before.len() && before[k] == j;
                            assert(after[k] == j);
                        } else if after.contains(j) {
                            let k = choose|k: int| 0 <= k < after.len() && after[k] == j;
                            assert(before[k] == j);
                        }
                    }
                    assert forall|k: int, l: int| 0 <= k < l < after.len() implies precedes(
                        outputs@,
                        asc,
                        #[trigger] after[k],
                        #[trigger] after[l],
                    ) by {
                        if l < before.len() {
                            assert(after[k] == before[k] && after[l] == before[l]);
                        } else {
                            assert(after[k] == before[k]);
                            assert(spendable(outputs@[b as int], q));
                        }
                    }
                    assert forall|j: int, k: int|
                        0 <= j < outputs.len() && spendable(#[trigger] outputs@[j], q)
                            && !after.contains(j) && 0 <= k < after.len() implies precedes(
                        outputs@,
                        asc,
                        #[trigger] after[k],
                        j,
                    ) by {
                        assert(!picked@[j]);
                        if k < before.len() {
                            assert(after[k] == before[k]);
                            assert(!before.contains(j));
                        }
                    }
                    assert forall|k: int| 0 <= k < after.len() implies 0 <= (#[trigger] after[k])
                        < outputs.len() && spendable(outputs@[after[k]], q) by {
                        if k < before.len() {
                            assert(after[k] == before[k]);
                        }
                    }
                }
            },
            None => {
                done = true;
            },
        }
    }
    proof {
        if picks.len() < max_outputs && !done {
            assert(strategy != SelectionStrategy::All && total >= target);
        }
        if strategy == SelectionStrategy::Smallest && max_outputs >= 1 && target > 0 {
            assert(!has_cover(outputs@, q, target as int));
        }
    }
    if total >= target {
        Ok(picks)
    } else {
        Err(picks)
    }
}

/// The fee of a transaction with one payment output and the given number of
/// change outputs, where it fits in 64 bits.
pub fn compute_send_fee(schedule: FeeSchedule, num_change_outputs: usize) -> (fee: Option<u64>)
    ensures
        match fee {
            Some(f) => f == send_fee(schedule, num_change_outputs),
            None => send_fee(schedule, num_change_outputs) > u64::MAX,
        },
{
    let changes: u128 = if num_change_outputs == 0 {
        1
    } else {
        num_change_outputs as u128
    };
    assert(schedule.output_fee as int * (1 + changes as int) <= 0xffff_ffff_ffff_ffff * (1
        + 0xffff_ffff_ffff_ffff)) by (nonlinear_arith)
        requires
            0 <= schedule.output_fee as int <= 0xffff_ffff_ffff_ffff,
            0 <= changes as int <= 0xffff_ffff_ffff_ffff,
    ;
    assert(0 <= schedule.output_fee as int * (1 + changes as int)) by (nonlinear_arith)
        requires
            0 <= schedule.output_fee as int,
            0 <= changes as int,
    ;
    let fee: u128 = schedule.base_fee as u128 + schedule.output_fee as u128 * (1 + changes);
    if fee > u64::MAX as u128 {
        None
    } else {
        Some(fee as u64)
    }
}

fn sum_values(outputs: &Vec<OutputData>, picks: &Vec<usize>) -> (total: u128)
    requires
        forall|k: int| 0 <= k < picks@.len() ==> (#[trigger] picks@[k]) < outputs.len(),
    ensures
        total == total_value(outputs@, pick_positions(picks@)),
{
    let mut total: u128 = 0;
    let mut k: usize = 0;
    assert(pick_positions(picks@).subrange(0, 0) =~= Seq::<int>::empty());
    while k < picks.len()
        invariant
            k <= picks.len(),
            forall|j: int| 0 <= j < picks@.len() ==> (#[trigger] picks@[j]) < outputs.len(),
            total == total_value(outputs@, pick_positions(picks@).subrange(0, k as int)),
        decreases picks.len() - k,
    {
        proof {
            let prefix = pick_positions(picks@).subrange(0, k as int);
            assert(pick_positions(picks@).subrange(0, k as int + 1) =~= prefix.push(
                picks@[k as int] as int,
            ));
            lemma_total_value_push(outputs@, prefix, picks@[k as int] as int);
            lemma_total_value_bound(outputs@, prefix);
            assert(prefix.len() * 0xffff_ffff_ffff_ffff <= 0xffff_ffff_ffff_ffff
                * 0xffff_ffff_ffff_ffff) by (nonlinear_arith)
                requires
                    0 <= prefix.len() <= 0xffff_ffff_ffff_ffff,
            ;
        }
        total = total + outputs[picks[k]].value as u128;
        k = k + 1;
    }
    proof {
        assert(pick_positions(picks@).subrange(0, k as int) =~= pick_positions(picks@));
    }
    total
}

fn saturate(x: u128) -> (r: u64)
    ensures
        r == saturated(x as int),
{
    if x > u64::MAX as u128 {
        u64::MAX
    } else {
        x as u64
    }
}

/// Every position of a selection or of a shortfall is a position of the
/// wallet.
proof fn lemma_picks_in_range(
    outputs: Seq<OutputData>,
    q: CoinQuery,
    strategy: SelectionStrategy,
    max_outputs: usize,
    target: int,
    picks: Seq<int>,
)
    requires
        is_selection(outputs, q, strategy, max_outputs, target, picks) || is_shortfall(
            outputs,
            q,
            strategy,
            max_outputs,
            target,
            picks,
        ),
    ensures
        forall|k: int| 0 <= k < picks.len() ==> 0 <= (#[trigger] picks[k]) < outputs.len(),
{
}

/// Selects the inputs for a payment of `amount` and computes the fee.
pub fn select_coins_and_fee(
    outputs: &Vec<OutputData>,
    schedule: FeeSchedule,
    amount: u64,
    current_height: u64,
    minimum_confirmations: u64,
    max_outputs: usize,
    num_change_outputs: usize,
    strategy: SelectionStrategy,
    parent_key_id: &Identifier,
) -> (r: Result<CoinSelection, ErrorKind>)
    ensures
        selection_result(
            outputs@,
            schedule,
            amount,
            CoinQuery { parent_key_id: *parent_key_id, current_height, minimum_confirmations },
            max_outputs,
            num_change_outputs,
            strategy,
            r,
        ),
{
    let ghost q = CoinQuery {
        parent_key_id: *parent_key_id,
        current_height,
        minimum_confirmations,
    };
    let fee = match compute_send_fee(schedule, num_change_outputs) {
        Some(f) => f,
        None => {
            return Err(ErrorKind::AmountOverflow);
        },
    };
    let target: u128 = amount as u128 + fee as u128;
    match select_coins(
        outputs,
        target,
        current_height,
        minimum_confirmations,
        max_outputs,
        strategy,
        parent_key_id,
    ) {
        Ok(positions) => {
            proof {
                lemma_picks_in_range(
                    outputs@,
                    q,
                    strategy,
                    max_outputs,
                    target as int,
                    pick_positions(positions@),
                );
                assert forall|k: int| 0 <= k < positions@.len() implies (#[trigger] positions@[k])
                    < outputs.len() by {
                    assert(pick_positions(positions@)[k] == positions@[k] as int);
                }
            }
            let total = sum_values(outputs, &positions);
            if total > u64::MAX as u128 {
                Err(ErrorKind::AmountOverflow)
            } else {
                Ok(CoinSelection { positions, total: total as u64, amount, fee })
            }
        },
        Err(positions) => {
            proof {
                lemma_picks_in_range(
                    outputs@,
                    q,
                    strategy,
                    max_outputs,
                    target as int,
                    pick_positions(positions@),
                );
                assert forall|k: int| 0 <= k < positions@.len() implies (#[trigger] positions@[k])
                    < outputs.len() by {
                    assert(pick_positions(positions@)[k] == positions@[k] as int);
                }
            }
            let total = sum_values(outputs, &positions);
            Err(ErrorKind::NotEnoughFunds { available: saturate(total), needed: saturate(target) })
        },
    }
}

} // verus!
