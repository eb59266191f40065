use libwallet::error::ErrorKind;
use libwallet::group::Point;
use libwallet::keychain::Identifier;
use libwallet::selection::{
    compute_send_fee, select_coins, select_coins_and_fee, CoinSelection, SelectionStrategy,
};
use libwallet::types::{OutputData, OutputStatus};
use libwallet::wallet::FeeSchedule;

fn parent() -> Identifier {
    Identifier::new(2, 0, 0, 0, 0)
}

fn unspent(value: u64, n: u32) -> OutputData {
    OutputData {
        root_key_id: parent(),
        key_id: parent().extend(n),
        commit: Point { v: value },
        value,
        status: OutputStatus::Unspent,
        height: 1,
        lock_height: 0,
        is_coinbase: false,
        tx_log_entry: None,
        slate_id: None,
    }
}

fn outputs(values: &[u64]) -> Vec<OutputData> {
    values.iter().enumerate().map(|(i, v)| unspent(*v, i as u32)).collect()
}

fn select(values: &[u64], target: u128, max: usize, strategy: SelectionStrategy) -> Result<Vec<usize>, Vec<usize>> {
    select_coins(&outputs(values), target, 10, 1, max, strategy, &parent())
}

#[test]
fn smallest_picks_the_smallest_single_cover() {
    let picks = select(&[10, 20, 70], 15 + 1, 500, SelectionStrategy::Smallest);
    assert_eq!(picks, Ok(vec![1]));
    let flat = FeeSchedule { base_fee: 1, output_fee: 0 };
    let r = select_coins_and_fee(
        &outputs(&[10, 20, 70]),
        flat,
        15,
        10,
        1,
        500,
        1,
        SelectionStrategy::Smallest,
        &parent(),
    );
    assert_eq!(r, Ok(CoinSelection { positions: vec![1], total: 20, amount: 15, fee: 1 }));
}

#[test]
fn smallest_prefers_the_first_of_equal_outputs() {
    assert_eq!(select(&[30, 20, 20, 70], 16, 500, SelectionStrategy::Smallest), Ok(vec![1]));
    assert_eq!(select(&[70, 20, 16], 16, 500, SelectionStrategy::Smallest), Ok(vec![2]));
}

#[test]
fn smallest_gathers_small_outputs_where_no_single_one_covers() {
    assert_eq!(select(&[7, 5, 6], 12, 500, SelectionStrategy::Smallest), Ok(vec![1, 2, 0]));
    assert_eq!(select(&[7, 5, 6], 11, 500, SelectionStrategy::Smallest), Ok(vec![1, 2]));
    // within the limit of inputs the smallest two fall short
    assert_eq!(select(&[7, 5, 6], 12, 2, SelectionStrategy::Smallest), Err(vec![1, 2]));
}

#[test]
fn biggest_takes_big_outputs_first() {
    assert_eq!(select(&[10, 20, 70], 16, 500, SelectionStrategy::Biggest), Ok(vec![2]));
    assert_eq!(select(&[10, 20, 70], 75, 500, SelectionStrategy::Biggest), Ok(vec![2, 1]));
    assert_eq!(select(&[10, 70, 70], 75, 500, SelectionStrategy::Biggest), Ok(vec![1, 2]));
    assert_eq!(select(&[10, 20, 70], 101, 500, SelectionStrategy::Biggest), Err(vec![2, 1, 0]));
    assert_eq!(select(&[10, 20, 70], 75, 1, SelectionStrategy::Biggest), Err(vec![2]));
}

#[test]
fn all_takes_everything_within_the_limit() {
    assert_eq!(select(&[10, 20, 70], 16, 500, SelectionStrategy::All), Ok(vec![2, 1, 0]));
    assert_eq!(select(&[10, 20, 70], 16, 2, SelectionStrategy::All), Ok(vec![2, 1]));
    assert_eq!(select(&[10, 20, 70], 100, 3, SelectionStrategy::All), Ok(vec![2, 1, 0]));
    assert_eq!(select(&[10, 20, 70], 101, 3, SelectionStrategy::All), Err(vec![2, 1, 0]));
    assert_eq!(select(&[], 0, 3, SelectionStrategy::All), Ok(vec![]));
}

#[test]
fn nothing_is_needed_for_nothing() {
    assert_eq!(select(&[10, 20], 0, 500, SelectionStrategy::Smallest), Ok(vec![]));
    assert_eq!(select(&[10, 20], 0, 500, SelectionStrategy::Biggest), Ok(vec![]));
    assert_eq!(select(&[10, 20], 1, 0, SelectionStrategy::Smallest), Err(vec![]));
    assert_eq!(select(&[], 1, 5, SelectionStrategy::Smallest), Err(vec![]));
}

#[test]
fn locked_immature_and_foreign_outputs_are_never_selected() {
    let mut all = outputs(&[100, 100, 100, 100, 100, 100, 30]);
    all[0].status = OutputStatus::Locked;
    all[1].status = OutputStatus::Spent;
    all[2].status = OutputStatus::Unconfirmed;
    all[3].root_key_id = Identifier::new(2, 1, 0, 0, 0);
    // confirmed at height 9: two confirmations at height 10
    all[4].height = 9;
    // a coinbase output that matures at height 11
    all[5].is_coinbase = true;
    all[5].lock_height = 11;
    let r = select_coins(&all, 20, 10, 3, 500, SelectionStrategy::All, &parent());
    assert_eq!(r, Ok(vec![6]));
    let r = select_coins(&all, 20, 10, 2, 500, SelectionStrategy::All, &parent());
    assert_eq!(r, Ok(vec![4, 6]));
    let r = select_coins(&all, 20, 11, 2, 500, SelectionStrategy::All, &parent());
    assert_eq!(r, Ok(vec![4, 5, 6]));
    let r = select_coins(&all, 20, 10, 11, 500, SelectionStrategy::All, &parent());
    assert_eq!(r, Err(vec![]));
    assert!(all[6].eligible_to_spend(10, 10));
    assert!(!all[6].eligible_to_spend(10, 11));
    assert!(all[6].eligible_to_spend(0, 0));
    assert!(!all[6].eligible_to_spend(0, 1));
    assert!(!all[0].eligible_to_spend(10, 0));
    assert!(all[6].eligible_to_spend(u64::MAX, u64::MAX));
}

#[test]
fn strategies_have_names() {
    assert_eq!(SelectionStrategy::parse(&"all".to_string()), SelectionStrategy::All);
    assert_eq!(SelectionStrategy::parse(&"biggest".to_string()), SelectionStrategy::Biggest);
    assert_eq!(SelectionStrategy::parse(&"smallest".to_string()), SelectionStrategy::Smallest);
    assert_eq!(SelectionStrategy::parse(&"".to_string()), SelectionStrategy::Smallest);
    assert_eq!(SelectionStrategy::parse(&"ALL".to_string()), SelectionStrategy::Smallest);
}

#[test]
fn fees_follow_the_schedule() {
    let schedule = FeeSchedule { base_fee: 2, output_fee: 3 };
    assert_eq!(compute_send_fee(schedule, 1), Some(8));
    assert_eq!(compute_send_fee(schedule, 0), Some(8));
    assert_eq!(compute_send_fee(schedule, 4), Some(17));
    assert_eq!(compute_send_fee(FeeSchedule { base_fee: u64::MAX, output_fee: 1 }, 1), None);
    assert_eq!(compute_send_fee(FeeSchedule { base_fee: u64::MAX - 2, output_fee: 1 }, 1), Some(u64::MAX));
    assert_eq!(compute_send_fee(FeeSchedule { base_fee: 0, output_fee: u64::MAX }, usize::MAX), None);
}

#[test]
fn selection_with_fee_reports_what_is_missing() {
    let schedule = FeeSchedule { base_fee: 2, output_fee: 3 };
    let all = outputs(&[10, 20, 70]);
    let r = select_coins_and_fee(&all, schedule, 92, 10, 1, 500, 1, SelectionStrategy::All, &parent());
    assert_eq!(r, Ok(CoinSelection { positions: vec![2, 1, 0], total: 100, amount: 92, fee: 8 }));
    let r = select_coins_and_fee(&all, schedule, 93, 10, 1, 500, 1, SelectionStrategy::All, &parent());
    assert_eq!(r, Err(ErrorKind::NotEnoughFunds { available: 100, needed: 101 }));
    let r = select_coins_and_fee(&all, schedule, u64::MAX, 10, 1, 500, 1, SelectionStrategy::Biggest, &parent());
    assert_eq!(r, Err(ErrorKind::NotEnoughFunds { available: 100, needed: u64::MAX }));
    let dear = FeeSchedule { base_fee: u64::MAX, output_fee: u64::MAX };
    let r = select_coins_and_fee(&all, dear, 1, 10, 1, 500, 1, SelectionStrategy::Biggest, &parent());
    assert_eq!(r, Err(ErrorKind::AmountOverflow));
    let rich = outputs(&[u64::MAX, u64::MAX]);
    let free = FeeSchedule { base_fee: 0, output_fee: 0 };
    let r = select_coins_and_fee(&rich, free, 1, 10, 1, 500, 1, SelectionStrategy::All, &parent());
    assert_eq!(r, Err(ErrorKind::AmountOverflow));
}
