//! What holds of coin selection: the strategy, the limit and the target
//! determine the selection.

use vstd::prelude::*;
use crate::builder::lemma_total_value_monotone;
use crate::error::ErrorKind;
use crate::selection::{
    CoinQuery, CoinSelection, SelectionStrategy, ascending, exhausted, is_selection,
    is_shortfall, leading, pick_positions, precedes, saturated, selection_result, send_fee,
    spendable,
    takes_single, total_value,
};
use crate::keychain::Identifier;
use crate::slate::SlateView;
use crate::tx::{estimate_of, is_estimate, payer_outcome, payer_step};
use crate::types::{Context, Entropy, OutputData, OutputStatus, eligible};
use crate::wallet::{ChainOutput, FeeSchedule, WalletView, refreshed_outputs};

verus! {

/// Of two different positions, exactly one comes before the other; no
/// position comes before itself.
pub proof fn lemma_precedes_is_an_order(outputs: Seq<OutputData>, asc: bool, i: int, j: int)
    ensures
        !(precedes(outputs, asc, i, j) && precedes(outputs, asc, j, i)),
        i != j ==> precedes(outputs, asc, i, j) || precedes(outputs, asc, j, i),
        !precedes(outputs, asc, i, i),
{
}

/// Two lists that both hold the first spendable outputs in the order of a
/// strategy agree as far as both go.
pub proof fn lemma_leading_agree(
    outputs: Seq<OutputData>,
    q: CoinQuery,
    asc: bool,
    p: Seq<int>,
    r: Seq<int>,
    k: int,
)
    requires
        leading(outputs, q, asc, p),
        leading(outputs, q, asc, r),
        0 <= k <= p.len(),
        k <= r.len(),
    ensures
        forall|j: int| 0 <= j < k ==> p[j] == r[j],
    decreases k,
{
    if k > 0 {
        lemma_leading_agree(outputs, q, asc, p, r, k - 1);
        let a = p[k - 1];
        let b = r[k - 1];
        if a != b {
            // a comes before b
            if p.contains(b) {
                let m = choose|m: int| 0 <= m < p.len() && p[m] == b;
                if m < k - 1 {
                    assert(r[m] == p[m]);
                    assert(precedes(outputs, asc, r[m], r[k - 1]));
                } else {
                    assert(precedes(outputs, asc, p[k - 1], p[m]));
                }
            } else {
                assert(spendable(outputs[b], q));
                assert(precedes(outputs, asc, p[k - 1], b));
            }
            // b comes before a
            if r.contains(a) {
                let m = choose|m: int| 0 <= m < r.len() && r[m] == a;
                if m < k - 1 {
                    assert(p[m] == r[m]);
                    assert(precedes(outputs, asc, p[m], p[k - 1]));
                } else {
                    assert(precedes(outputs, asc, r[k - 1], r[m]));
                }
            } else {
                assert(spendable(outputs[a], q));
                assert(precedes(outputs, asc, r[k - 1], a));
            }
            lemma_precedes_is_an_order(outputs, asc, a, b);
        }
    }
}

/// Of two selections for one target, the first is not shorter than the
/// second.
proof fn lemma_selection_not_shorter(
    outputs: Seq<OutputData>,
    q: CoinQuery,
    strategy: SelectionStrategy,
    max_outputs: usize,
    target: int,
    p: Seq<int>,
    r: Seq<int>,
)
    requires
        !takes_single(outputs, q, strategy, max_outputs, target),
        is_selection(outputs, q, strategy, max_outputs, target, p),
        is_selection(outputs, q, strategy, max_outputs, target, r),
    ensures
        p.len() >= r.len(),
{
    let asc = ascending(strategy);
    if p.len() < r.len() {
        let n = p.len() as int;
        lemma_leading_agree(outputs, q, asc, p, r, n);
        assert(r.subrange(0, n) =~= p);
        if strategy == SelectionStrategy::All {
            // every spendable output is in p, and so is the next of r
            assert(exhausted(outputs, q, p));
            assert(spendable(outputs[r[n]], q));
            assert(p.contains(r[n]));
            let m = choose|m: int| 0 <= m < p.len() && p[m] == r[n];
            assert(r[m] == p[m]);
            assert(precedes(outputs, asc, r[m], r[n]));
            lemma_precedes_is_an_order(outputs, asc, r[m], r[n]);
        } else {
            // p covers the target, and r without its last output has at
            // least the value of p
            let front = r.drop_last();
            assert(front.subrange(0, n) =~= p);
            lemma_total_value_monotone(outputs, front, n);
        }
    }
}

/// The strategy, the limit and the target determine the selection.
pub proof fn lemma_selection_unique(
    outputs: Seq<OutputData>,
    q: CoinQuery,
    strategy: SelectionStrategy,
    max_outputs: usize,
    target: int,
    p: Seq<int>,
    r: Seq<int>,
)
    requires
        is_selection(outputs, q, strategy, max_outputs, target, p),
        is_selection(outputs, q, strategy, max_outputs, target, r),
    ensures
        p == r,
{
    if takes_single(outputs, q, strategy, max_outputs, target) {
        if p[0] != r[0] {
            assert(precedes(outputs, true, p[0], r[0]));
            assert(precedes(outputs, true, r[0], p[0]));
            lemma_precedes_is_an_order(outputs, true, p[0], r[0]);
        }
        assert(p =~= r);
    } else {
        lemma_selection_not_shorter(outputs, q, strategy, max_outputs, target, p, r);
        lemma_selection_not_shorter(outputs, q, strategy, max_outputs, target, r, p);
        lemma_leading_agree(outputs, q, ascending(strategy), p, r, p.len() as int);
        assert(p =~= r);
    }
}

/// No selection and no shortfall holds an output that is locked, spent,
/// unconfirmed, of another account, immature, or confirmed less deeply than
/// asked.
pub proof fn lemma_selection_is_spendable(
    outputs: Seq<OutputData>,
    q: CoinQuery,
    strategy: SelectionStrategy,
    max_outputs: usize,
    target: int,
    p: Seq<int>,
    k: int,
)
    requires
        is_selection(outputs, q, strategy, max_outputs, target, p) || is_shortfall(
            outputs,
            q,
            strategy,
            max_outputs,
            target,
            p,
        ),
        0 <= k < p.len(),
    ensures
        0 <= p[k] < outputs.len(),
        outputs[p[k]].status == OutputStatus::Unspent,
        outputs[p[k]].root_key_id == q.parent_key_id,
        eligible(outputs[p[k]], q.current_height, q.minimum_confirmations),
{
}

/// A selection covers its target, within the limit of inputs.
pub proof fn lemma_selection_covers(
    outputs: Seq<OutputData>,
    q: CoinQuery,
    strategy: SelectionStrategy,
    max_outputs: usize,
    target: int,
    p: Seq<int>,
)
    requires
        is_selection(outputs, q, strategy, max_outputs, target, p),
    ensures
        total_value(outputs, p) >= target,
        p.len() <= max_outputs,
{
    if takes_single(outputs, q, strategy, max_outputs, target) {
        assert(p.drop_last() =~= Seq::<int>::empty());
        assert(total_value(outputs, p) == outputs[p[0]].value) by {
            reveal_with_fuel(total_value, 2);
        }
    }
}

/// There cannot be both a selection and a shortfall for one target.
pub proof fn lemma_selection_or_shortfall(
    outputs: Seq<OutputData>,
    q: CoinQuery,
    strategy: SelectionStrategy,
    max_outputs: usize,
    target: int,
    p: Seq<int>,
    r: Seq<int>,
)
    requires
        is_selection(outputs, q, strategy, max_outputs, target, p),
    ensures
        !is_shortfall(outputs, q, strategy, max_outputs, target, r),
{
    let asc = ascending(strategy);
    if !is_shortfall(outputs, q, strategy, max_outputs, target, r) {
        // nothing to show
    } else if p.len() <= r.len() {
        let n = p.len() as int;
        lemma_leading_agree(outputs, q, asc, p, r, n);
        assert(r.subrange(0, n) =~= p);
        lemma_total_value_monotone(outputs, r, n);
    } else {
        // the selection goes on where the shortfall ends
        let n = r.len() as int;
        lemma_leading_agree(outputs, q, asc, r, p, n);
        assert(p.subrange(0, n) =~= r);
        // the shortfall is at the limit or has every spendable output
        assert(r.len() < max_outputs);
        assert(exhausted(outputs, q, r));
        assert(spendable(outputs[p[n]], q));
        assert(r.contains(p[n]));
        let m = choose|m: int| 0 <= m < r.len() && r[m] == p[n];
        assert(p[m] == r[m]);
        assert(precedes(outputs, asc, p[m], p[n]));
        lemma_precedes_is_an_order(outputs, asc, p[m], p[n]);
    }
}

proof fn lemma_shortfall_not_longer(
    outputs: Seq<OutputData>,
    q: CoinQuery,
    strategy: SelectionStrategy,
    max_outputs: usize,
    target: int,
    p: Seq<int>,
    r: Seq<int>,
)
    requires
        is_shortfall(outputs, q, strategy, max_outputs, target, p),
        is_shortfall(outputs, q, strategy, max_outputs, target, r),
    ensures
        r.len() <= p.len(),
{
    let asc = ascending(strategy);
    if p.len() < r.len() {
        let n = p.len() as int;
        lemma_leading_agree(outputs, q, asc, p, r, n);
        assert(exhausted(outputs, q, p));
        assert(spendable(outputs[r[n]], q));
        assert(p.contains(r[n]));
        let m = choose|m: int| 0 <= m < p.len() && p[m] == r[n];
        assert(p[m] == r[m]);
        assert(precedes(outputs, asc, r[m], r[n]));
        lemma_precedes_is_an_order(outputs, asc, r[m], r[n]);
    }
}

/// The strategy, the limit and the target determine what is taken where
/// the funds fall short.
pub proof fn lemma_shortfall_unique(
    outputs: Seq<OutputData>,
    q: CoinQuery,
    strategy: SelectionStrategy,
    max_outputs: usize,
    target: int,
    p: Seq<int>,
    r: Seq<int>,
)
    requires
        is_shortfall(outputs, q, strategy, max_outputs, target, p),
        is_shortfall(outputs, q, strategy, max_outputs, target, r),
    ensures
        p == r,
{
    lemma_shortfall_not_longer(outputs, q, strategy, max_outputs, target, p, r);
    lemma_shortfall_not_longer(outputs, q, strategy, max_outputs, target, r, p);
    lemma_leading_agree(outputs, q, ascending(strategy), p, r, p.len() as int);
    assert(p =~= r);
}

/// Whether two results of a selection say the same: the same positions,
/// total, amount and fee, or the same error.
pub open spec fn same_selection(
    a: Result<CoinSelection, ErrorKind>,
    b: Result<CoinSelection, ErrorKind>,
) -> bool {
    match (a, b) {
        (Ok(x), Ok(y)) => x.positions@ == y.positions@ && x.total == y.total && x.amount
            == y.amount && x.fee == y.fee,
        (Err(e), Err(f)) => e == f,
        _ => false,
    }
}

/// The outputs, the fee schedule, the amount, the strategy and the limits
/// determine the result of a selection: two selections among the same
/// outputs for the same payment take the same inputs, or fail alike.
pub proof fn lemma_selection_result_unique(
    outputs: Seq<OutputData>,
    schedule: FeeSchedule,
    amount: u64,
    q: CoinQuery,
    max_outputs: usize,
    num_change_outputs: usize,
    strategy: SelectionStrategy,
    a: Result<CoinSelection, ErrorKind>,
    b: Result<CoinSelection, ErrorKind>,
)
    requires
        selection_result(
            outputs,
            schedule,
            amount,
            q,
            max_outputs,
            num_change_outputs,
            strategy,
            a,
        ),
        selection_result(
            outputs,
            schedule,
            amount,
            q,
            max_outputs,
            num_change_outputs,
            strategy,
            b,
        ),
    ensures
        same_selection(a, b),
{
    let fee = send_fee(schedule, num_change_outputs);
    let target = amount + fee;
    lemma_result_excludes(
        outputs,
        schedule,
        amount,
        q,
        max_outputs,
        num_change_outputs,
        strategy,
        a,
        b,
    );
    lemma_result_excludes(
        outputs,
        schedule,
        amount,
        q,
        max_outputs,
        num_change_outputs,
        strategy,
        b,
        a,
    );
    match (a, b) {
        (Ok(x), Ok(y)) => {
            let px = pick_positions(x.positions@);
            let py = pick_positions(y.positions@);
            lemma_selection_unique(outputs, q, strategy, max_outputs, target, px, py);
            assert(x.positions@.len() == px.len());
            assert(y.positions@.len() == py.len());
            assert forall|i: int| 0 <= i < x.positions@.len() implies x.positions@[i]
                == y.positions@[i] by {
                assert(px[i] == x.positions@[i] as int);
                assert(py[i] == y.positions@[i] as int);
            }
            assert(x.positions@ =~= y.positions@);
        },
        (
            Err(ErrorKind::NotEnoughFunds { available: a1, needed: n1 }),
            Err(ErrorKind::NotEnoughFunds { available: a2, needed: n2 }),
        ) => {
            let p = choose|picks: Seq<int>|
                #![auto]
                is_shortfall(outputs, q, strategy, max_outputs, target, picks) && a1
                    == saturated(total_value(outputs, picks));
            let r = choose|picks: Seq<int>|
                #![auto]
                is_shortfall(outputs, q, strategy, max_outputs, target, picks) && a2
                    == saturated(total_value(outputs, picks));
            lemma_shortfall_unique(outputs, q, strategy, max_outputs, target, p, r);
        },
        _ => {},
    }
}

/// A selection that succeeds excludes every failure, and one that falls
/// short excludes an overflow.
proof fn lemma_result_excludes(
    outputs: Seq<OutputData>,
    schedule: FeeSchedule,
    amount: u64,
    q: CoinQuery,
    max_outputs: usize,
    num_change_outputs: usize,
    strategy: SelectionStrategy,
    a: Result<CoinSelection, ErrorKind>,
    b: Result<CoinSelection, ErrorKind>,
)
    requires
        selection_result(
            outputs,
            schedule,
            amount,
            q,
            max_outputs,
            num_change_outputs,
            strategy,
            a,
        ),
        selection_result(
            outputs,
            schedule,
            amount,
            q,
            max_outputs,
            num_change_outputs,
            strategy,
            b,
        ),
    ensures
        a is Ok ==> b is Ok,
        a == Err::<CoinSelection, ErrorKind>(ErrorKind::AmountOverflow) ==> b == a,
{
    let fee = send_fee(schedule, num_change_outputs);
    let target = amount + fee;
    match a {
        Ok(x) => {
            let px = pick_positions(x.positions@);
            match b {
                Ok(_) => {},
                Err(ErrorKind::NotEnoughFunds { available, needed }) => {
                    let r = choose|picks: Seq<int>|
                        #![auto]
                        is_shortfall(outputs, q, strategy, max_outputs, target, picks) && available
                            == saturated(total_value(outputs, picks));
                    lemma_selection_or_shortfall(outputs, q, strategy, max_outputs, target, px, r);
                },
                Err(ErrorKind::AmountOverflow) => {
                    if fee <= u64::MAX {
                        let r = choose|picks: Seq<int>|
                            #![auto]
                            is_selection(outputs, q, strategy, max_outputs, target, picks)
                                && total_value(outputs, picks) > u64::MAX;
                        lemma_selection_unique(outputs, q, strategy, max_outputs, target, px, r);
                    }
                },
                Err(_) => {},
            }
        },
        Err(ErrorKind::AmountOverflow) => {
            match b {
                Ok(y) => {
                    if fee <= u64::MAX {
                        let p = choose|picks: Seq<int>|
                            #![auto]
                            is_selection(outputs, q, strategy, max_outputs, target, picks)
                                && total_value(outputs, picks) > u64::MAX;
                        lemma_selection_unique(
                            outputs,
                            q,
                            strategy,
                            max_outputs,
                            target,
                            pick_positions(y.positions@),
                            p,
                        );
                    }
                },
                Err(ErrorKind::NotEnoughFunds { available, needed }) => {
                    let p = choose|picks: Seq<int>|
                        #![auto]
                        is_selection(outputs, q, strategy, max_outputs, target, picks)
                            && total_value(outputs, picks) > u64::MAX;
                    let r = choose|picks: Seq<int>|
                        #![auto]
                        is_shortfall(outputs, q, strategy, max_outputs, target, picks) && available
                            == saturated(total_value(outputs, picks));
                    lemma_selection_or_shortfall(outputs, q, strategy, max_outputs, target, p, r);
                },
                Err(_) => {},
            }
        },
        Err(_) => {},
    }
}

/// Whether two results of the payer's step say the same: the same secrets,
/// or the same error.
pub open spec fn same_step(a: Result<Context, ErrorKind>, b: Result<Context, ErrorKind>) -> bool {
    match (a, b) {
        (Ok(x), Ok(y)) => x@ == y@,
        (Err(e), Err(f)) => e == f,
        _ => false,
    }
}

/// The payer's step is determined by what it starts from: two runs on
/// equal records and equal slates, with the same limits, strategy, account,
/// message and random values, select the same inputs, and so they leave
/// equal slates and equal records, and give equal secrets or the same
/// error.
pub proof fn lemma_payer_step_unique(
    w: WalletView,
    s: SlateView,
    minimum_confirmations: u64,
    max_outputs: usize,
    num_change_outputs: usize,
    strategy: SelectionStrategy,
    parent_key_id: Identifier,
    participant_id: u64,
    message: Option<Seq<char>>,
    is_initiator: bool,
    entropy: Entropy,
    first: (Result<Context, ErrorKind>, SlateView, WalletView),
    second: (Result<Context, ErrorKind>, SlateView, WalletView),
)
    requires
        payer_step(
            w,
            s,
            minimum_confirmations,
            max_outputs,
            num_change_outputs,
            strategy,
            parent_key_id,
            participant_id,
            message,
            is_initiator,
            entropy,
            first.0,
            first.1,
            first.2,
        ),
        payer_step(
            w,
            s,
            minimum_confirmations,
            max_outputs,
            num_change_outputs,
            strategy,
            parent_key_id,
            participant_id,
            message,
            is_initiator,
            entropy,
            second.0,
            second.1,
            second.2,
        ),
    ensures
        same_step(first.0, second.0),
        first.1 == second.1,
        first.2 == second.2,
{
    let q = CoinQuery { parent_key_id, current_height: s.height, minimum_confirmations };
    lemma_step_has_selection(
        w,
        s,
        q,
        max_outputs,
        num_change_outputs,
        strategy,
        participant_id,
        message,
        is_initiator,
        entropy,
        first,
    );
    lemma_step_has_selection(
        w,
        s,
        q,
        max_outputs,
        num_change_outputs,
        strategy,
        participant_id,
        message,
        is_initiator,
        entropy,
        second,
    );
    let a = choose|sel: Result<CoinSelection, ErrorKind>|
        step_with(
            w,
            s,
            q,
            max_outputs,
            num_change_outputs,
            strategy,
            participant_id,
            message,
            is_initiator,
            entropy,
            first,
            sel,
        );
    let b = choose|sel: Result<CoinSelection, ErrorKind>|
        step_with(
            w,
            s,
            q,
            max_outputs,
            num_change_outputs,
            strategy,
            participant_id,
            message,
            is_initiator,
            entropy,
            second,
            sel,
        );
    lemma_selection_result_unique(
        w.outputs,
        w.fee_schedule,
        s.amount,
        q,
        max_outputs,
        num_change_outputs,
        strategy,
        a,
        b,
    );
    lemma_steps_agree(
        w,
        s,
        q,
        max_outputs,
        num_change_outputs,
        strategy,
        participant_id,
        message,
        is_initiator,
        entropy,
        first,
        second,
        a,
        b,
    );
}

proof fn lemma_step_has_selection(
    w: WalletView,
    s: SlateView,
    q: CoinQuery,
    max_outputs: usize,
    num_change_outputs: usize,
    strategy: SelectionStrategy,
    participant_id: u64,
    message: Option<Seq<char>>,
    is_initiator: bool,
    entropy: Entropy,
    outcome: (Result<Context, ErrorKind>, SlateView, WalletView),
)
    requires
        q.current_height == s.height,
        payer_step(
            w,
            s,
            q.minimum_confirmations,
            max_outputs,
            num_change_outputs,
            strategy,
            q.parent_key_id,
            participant_id,
            message,
            is_initiator,
            entropy,
            outcome.0,
            outcome.1,
            outcome.2,
        ),
    ensures
        exists|sel: Result<CoinSelection, ErrorKind>|
            step_with(
                w,
                s,
                q,
                max_outputs,
                num_change_outputs,
                strategy,
                participant_id,
                message,
                is_initiator,
                entropy,
                outcome,
                sel,
            ),
{
    let q1 = CoinQuery {
        parent_key_id: q.parent_key_id,
        current_height: s.height,
        minimum_confirmations: q.minimum_confirmations,
    };
    assert(q1 == q);
    let sel = choose|sel: Result<CoinSelection, ErrorKind>|
        {
            &&& #[trigger] selection_result(
                w.outputs,
                w.fee_schedule,
                s.amount,
                q1,
                max_outputs,
                num_change_outputs,
                strategy,
                sel,
            )
            &&& match sel {
                Err(e) => outcome.0 == Err::<Context, ErrorKind>(e) && outcome.1 == s && outcome.2
                    == w,
                Ok(chosen) => match payer_outcome(
                    w,
                    s,
                    pick_positions(chosen.positions@),
                    chosen.fee,
                    num_change_outputs,
                    q.parent_key_id,
                    participant_id,
                    message,
                    is_initiator,
                    entropy,
                ) {
                    Ok((s2, c2, w2)) => outcome.0 is Ok && outcome.0->Ok_0@ == c2 && outcome.1
                        == s2 && outcome.2 == w2,
                    Err(e) => outcome.0 == Err::<Context, ErrorKind>(e) && outcome.1 == s
                        && outcome.2 == w,
                },
            }
        };
    assert(step_with(
        w,
        s,
        q,
        max_outputs,
        num_change_outputs,
        strategy,
        participant_id,
        message,
        is_initiator,
        entropy,
        outcome,
        sel,
    ));
}

proof fn lemma_steps_agree(
    w: WalletView,
    s: SlateView,
    q: CoinQuery,
    max_outputs: usize,
    num_change_outputs: usize,
    strategy: SelectionStrategy,
    participant_id: u64,
    message: Option<Seq<char>>,
    is_initiator: bool,
    entropy: Entropy,
    first: (Result<Context, ErrorKind>, SlateView, WalletView),
    second: (Result<Context, ErrorKind>, SlateView, WalletView),
    a: Result<CoinSelection, ErrorKind>,
    b: Result<CoinSelection, ErrorKind>,
)
    requires
        step_with(
            w,
            s,
            q,
            max_outputs,
            num_change_outputs,
            strategy,
            participant_id,
            message,
            is_initiator,
            entropy,
            first,
            a,
        ),
        step_with(
            w,
            s,
            q,
            max_outputs,
            num_change_outputs,
            strategy,
            participant_id,
            message,
            is_initiator,
            entropy,
            second,
            b,
        ),
        same_selection(a, b),
    ensures
        same_step(first.0, second.0),
        first.1 == second.1,
        first.2 == second.2,
{
    match (a, b) {
        (Ok(x), Ok(y)) => {
            assert(pick_positions(x.positions@) == pick_positions(y.positions@));
            let o = payer_outcome(
                w,
                s,
                pick_positions(x.positions@),
                x.fee,
                num_change_outputs,
                q.parent_key_id,
                participant_id,
                message,
                is_initiator,
                entropy,
            );
            assert(o == payer_outcome(
                w,
                s,
                pick_positions(y.positions@),
                y.fee,
                num_change_outputs,
                q.parent_key_id,
                participant_id,
                message,
                is_initiator,
                entropy,
            ));
        },
        _ => {},
    }
}

/// Whether the payer's step gives `outcome` where the selection gives
/// `sel`.
pub open spec fn step_with(
    w: WalletView,
    s: SlateView,
    q: CoinQuery,
    max_outputs: usize,
    num_change_outputs: usize,
    strategy: SelectionStrategy,
    participant_id: u64,
    message: Option<Seq<char>>,
    is_initiator: bool,
    entropy: Entropy,
    outcome: (Result<Context, ErrorKind>, SlateView, WalletView),
    sel: Result<CoinSelection, ErrorKind>,
) -> bool {
    &&& selection_result(
        w.outputs,
        w.fee_schedule,
        s.amount,
        q,
        max_outputs,
        num_change_outputs,
        strategy,
        sel,
    )
    &&& match sel {
        Err(e) => outcome.0 == Err::<Context, ErrorKind>(e) && outcome.1 == s && outcome.2 == w,
        Ok(chosen) => match payer_outcome(
            w,
            s,
            pick_positions(chosen.positions@),
            chosen.fee,
            num_change_outputs,
            q.parent_key_id,
            participant_id,
            message,
            is_initiator,
            entropy,
        ) {
            Ok((s2, c2, w2)) => outcome.0 is Ok && outcome.0->Ok_0@ == c2 && outcome.1 == s2
                && outcome.2 == w2,
            Err(e) => outcome.0 == Err::<Context, ErrorKind>(e) && outcome.1 == s && outcome.2
                == w,
        },
    }
}

/// The records, the payment and what the chain shows determine the
/// estimate.
pub proof fn lemma_estimate_unique(
    w: WalletView,
    amount: u64,
    q: CoinQuery,
    max_outputs: usize,
    num_change_outputs: usize,
    strategy: SelectionStrategy,
    chain: Seq<ChainOutput>,
    first: Result<(u64, u64), ErrorKind>,
    second: Result<(u64, u64), ErrorKind>,
)
    requires
        is_estimate(w, amount, q, max_outputs, num_change_outputs, strategy, chain, first),
        is_estimate(w, amount, q, max_outputs, num_change_outputs, strategy, chain, second),
    ensures
        first == second,
{
    let outputs = refreshed_outputs(w.outputs, q.parent_key_id, chain);
    let a = choose|sel: Result<CoinSelection, ErrorKind>|
        #![auto]
        selection_result(
            outputs,
            w.fee_schedule,
            amount,
            q,
            max_outputs,
            num_change_outputs,
            strategy,
            sel,
        ) && first == estimate_of(sel);
    let b = choose|sel: Result<CoinSelection, ErrorKind>|
        #![auto]
        selection_result(
            outputs,
            w.fee_schedule,
            amount,
            q,
            max_outputs,
            num_change_outputs,
            strategy,
            sel,
        ) && second == estimate_of(sel);
    lemma_selection_result_unique(
        outputs,
        w.fee_schedule,
        amount,
        q,
        max_outputs,
        num_change_outputs,
        strategy,
        a,
        b,
    );
}

} // verus!
