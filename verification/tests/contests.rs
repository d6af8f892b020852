use stellar_swipe::contests::{
    auto_enter_signal, create_contest, finalize_contest, get_active_contests, get_contest,
    get_contest_leaderboard, get_provider_prize, Contest, ContestEntry, ContestMetric,
    ContestStatus, ContestStore,
};
use stellar_swipe::errors::ContestError;
use stellar_swipe::types::{Address, RiskLevel, Signal, SignalAction, SignalCategory, SignalStatus};

fn account(n: u128) -> Address {
    Address { is_contract: false, key_hi: 0, key_lo: n }
}

fn signal(id: u64, provider: Address, total_roi: i128, now: u64) -> Signal {
    Signal {
        id,
        provider,
        asset_pair: String::from("XLM/USDC"),
        action: SignalAction::Buy,
        price: 100,
        rationale: String::from("Test"),
        timestamp: now,
        expiry: now + 3600,
        status: SignalStatus::Active,
        executions: 1,
        successful_executions: 1,
        total_volume: 1000,
        total_roi,
        category: SignalCategory::SwingTrade,
        tags: Vec::new(),
        risk_level: RiskLevel::Medium,
        is_collaborative: false,
    }
}

fn entry_of<'a>(contest: &'a Contest, provider: &Address) -> Option<&'a ContestEntry> {
    contest.entries.iter().find(|e| e.provider == *provider)
}

#[test]
fn test_create_contest() {
    let mut store = ContestStore::new();
    let now = 0u64;
    let start_time = now;
    let end_time = start_time + 7 * 24 * 60 * 60;
    let contest_id = create_contest(
        &mut store,
        String::from("Weekly ROI Contest"),
        start_time,
        end_time,
        ContestMetric::HighestROI,
        3,
        10000,
        now,
    )
    .unwrap();
    assert_eq!(contest_id, 1);
    let contest = get_contest(&store, contest_id).unwrap();
    assert_eq!(contest.id, 1);
    assert_eq!(contest.status, ContestStatus::Active);
    assert_eq!(contest.prize_pool, 10000);
}

#[test]
fn test_auto_enter_signal() {
    let mut store = ContestStore::new();
    let now = 0u64;
    let provider = account(7);
    let contest_id = create_contest(
        &mut store,
        String::from("Test Contest"),
        now,
        now + 7 * 24 * 60 * 60,
        ContestMetric::HighestROI,
        2,
        5000,
        now,
    )
    .unwrap();
    let mut s = signal(1, provider, 150, now);
    s.rationale = String::from("Test signal");
    auto_enter_signal(&mut store, &s, now).unwrap();
    let contest = get_contest(&store, contest_id).unwrap();
    let entry = entry_of(contest, &provider).unwrap();
    assert_eq!(entry.signals_submitted.len(), 1);
    assert_eq!(entry.total_roi, 150);
    assert_eq!(entry.total_volume, 1000);
}

#[test]
fn test_finalize_contest_with_winners() {
    let mut store = ContestStore::new();
    let now = 0u64;
    let provider1 = account(11);
    let provider2 = account(22);
    let provider3 = account(33);
    let end_time = now + 100;
    let contest_id = create_contest(
        &mut store,
        String::from("ROI Contest"),
        now,
        end_time,
        ContestMetric::HighestROI,
        2,
        10000,
        now,
    )
    .unwrap();
    let plan = vec![(provider1, 200i128, 2u64), (provider2, 300, 3), (provider3, 150, 2)];
    for (provider, roi, count) in plan {
        for i in 0..count {
            let s = signal(i, provider, roi / count as i128, now);
            auto_enter_signal(&mut store, &s, now).unwrap();
        }
    }
    let winners = finalize_contest(&mut store, contest_id, end_time + 1).unwrap();
    assert_eq!(winners.len(), 3);
    assert_eq!(winners[0], provider2);
    assert_eq!(get_provider_prize(&store, contest_id, provider2), 5000);
    assert_eq!(get_provider_prize(&store, contest_id, provider1), 3000);
    assert_eq!(get_provider_prize(&store, contest_id, provider3), 2000);
}

#[test]
fn test_contest_min_signals_requirement() {
    let mut store = ContestStore::new();
    let now = 0u64;
    let provider1 = account(1);
    let provider2 = account(2);
    let end_time = now + 100;
    let contest_id = create_contest(
        &mut store,
        String::from("Min Signals Test"),
        now,
        end_time,
        ContestMetric::HighestROI,
        3,
        5000,
        now,
    )
    .unwrap();
    for i in 0..2u64 {
        auto_enter_signal(&mut store, &signal(i, provider1, 200, now), now).unwrap();
    }
    for i in 2..5u64 {
        auto_enter_signal(&mut store, &signal(i, provider2, 150, now), now).unwrap();
    }
    let winners = finalize_contest(&mut store, contest_id, end_time + 1).unwrap();
    assert_eq!(winners.len(), 1);
    assert_eq!(winners[0], provider2);
}

#[test]
fn test_get_contest_leaderboard() {
    let mut store = ContestStore::new();
    let now = 0u64;
    let provider1 = account(5);
    let provider2 = account(6);
    let contest_id = create_contest(
        &mut store,
        String::from("Leaderboard Test"),
        now,
        now + 7 * 24 * 60 * 60,
        ContestMetric::HighestROI,
        1,
        5000,
        now,
    )
    .unwrap();
    auto_enter_signal(&mut store, &signal(1, provider1, 300, now), now).unwrap();
    auto_enter_signal(&mut store, &signal(2, provider2, 200, now), now).unwrap();
    let leaderboard = get_contest_leaderboard(&store, contest_id).unwrap();
    assert_eq!(leaderboard.len(), 2);
    assert_eq!(leaderboard[0].provider, provider1);
    assert_eq!(leaderboard[0].score, 300);
    assert_eq!(leaderboard[1].provider, provider2);
    assert_eq!(leaderboard[1].score, 200);
}

#[test]
#[should_panic(expected = "ContestNotEnded")]
fn test_finalize_contest_before_end() {
    let mut store = ContestStore::new();
    let now = 0u64;
    let contest_id = create_contest(
        &mut store,
        String::from("Early Finalize Test"),
        now,
        now + 7 * 24 * 60 * 60,
        ContestMetric::HighestROI,
        1,
        5000,
        now,
    )
    .unwrap();
    finalize_contest(&mut store, contest_id, now).unwrap();
}

#[test]
fn contest_rejects_bad_time_range_and_pool() {
    let mut store = ContestStore::new();
    let r = create_contest(&mut store, String::from("a"), 10, 10, ContestMetric::HighestROI, 1, 1, 0);
    assert_eq!(r, Err(ContestError::InvalidTimeRange));
    let r = create_contest(&mut store, String::from("b"), 1, 5, ContestMetric::HighestROI, 1, 1, 5);
    assert_eq!(r, Err(ContestError::InvalidTimeRange));
    let r = create_contest(&mut store, String::from("c"), 1, 50, ContestMetric::HighestROI, 1, -1, 5);
    assert_eq!(r, Err(ContestError::InvalidPrizePool));
    assert_eq!(store.counter, 0);
    assert!(get_active_contests(&store).is_empty());
    assert_eq!(get_contest(&store, 1).err(), Some(ContestError::ContestNotFound));
    assert_eq!(get_contest_leaderboard(&store, 1).err(), Some(ContestError::ContestNotFound));
}

#[test]
fn contest_ids_are_consecutive_and_listed_active() {
    let mut store = ContestStore::new();
    let a = create_contest(&mut store, String::from("a"), 0, 10, ContestMetric::MostVolume, 1, 0, 0).unwrap();
    let b = create_contest(&mut store, String::from("b"), 0, 10, ContestMetric::MostVolume, 1, 0, 0).unwrap();
    assert_eq!((a, b), (1, 2));
    assert_eq!(get_active_contests(&store).clone(), vec![1, 2]);
}

#[test]
fn finalize_twice_is_refused_and_contest_leaves_active_list() {
    let mut store = ContestStore::new();
    let p = account(3);
    let id = create_contest(&mut store, String::from("x"), 0, 10, ContestMetric::HighestROI, 1, 100, 0).unwrap();
    auto_enter_signal(&mut store, &signal(1, p, 40, 0), 0).unwrap();
    let winners = finalize_contest(&mut store, id, 10).unwrap();
    assert_eq!(winners, vec![p]);
    let c = get_contest(&store, id).unwrap();
    assert_eq!(c.status, ContestStatus::Finalized);
    assert_eq!(c.winners, vec![p]);
    assert!(get_active_contests(&store).is_empty());
    assert_eq!(get_provider_prize(&store, id, p), 50);
    assert_eq!(finalize_contest(&mut store, id, 20), Err(ContestError::AlreadyFinalized));
    assert_eq!(finalize_contest(&mut store, 99, 20), Err(ContestError::ContestNotFound));
}

#[test]
fn prizes_round_down_and_stay_within_pool() {
    let mut store = ContestStore::new();
    let id = create_contest(&mut store, String::from("x"), 0, 10, ContestMetric::HighestROI, 1, 10001, 0).unwrap();
    let (p1, p2, p3, p4) = (account(1), account(2), account(3), account(4));
    auto_enter_signal(&mut store, &signal(1, p1, 40, 0), 0).unwrap();
    auto_enter_signal(&mut store, &signal(2, p2, 30, 0), 0).unwrap();
    auto_enter_signal(&mut store, &signal(3, p3, 20, 0), 0).unwrap();
    auto_enter_signal(&mut store, &signal(4, p4, 10, 0), 0).unwrap();
    let winners = finalize_contest(&mut store, id, 10).unwrap();
    assert_eq!(winners, vec![p1, p2, p3]);
    let total = get_provider_prize(&store, id, p1) + get_provider_prize(&store, id, p2) + get_provider_prize(&store, id, p3);
    assert_eq!(get_provider_prize(&store, id, p1), 5000);
    assert_eq!(get_provider_prize(&store, id, p2), 3000);
    assert_eq!(get_provider_prize(&store, id, p3), 2000);
    assert_eq!(get_provider_prize(&store, id, p4), 0);
    assert!(total <= 10001);
}

#[test]
fn empty_pool_allots_no_prizes() {
    let mut store = ContestStore::new();
    let p = account(9);
    let id = create_contest(&mut store, String::from("x"), 0, 10, ContestMetric::HighestROI, 1, 0, 0).unwrap();
    auto_enter_signal(&mut store, &signal(1, p, 40, 0), 0).unwrap();
    assert_eq!(finalize_contest(&mut store, id, 10).unwrap(), vec![p]);
    assert!(store.prizes.is_empty());
}

#[test]
fn equal_scores_rank_by_address() {
    let mut store = ContestStore::new();
    let id = create_contest(&mut store, String::from("x"), 0, 10, ContestMetric::HighestROI, 1, 0, 0).unwrap();
    let low = account(1);
    let high = account(2);
    let contract = Address { is_contract: true, key_hi: 0, key_lo: 0 };
    auto_enter_signal(&mut store, &signal(1, contract, 50, 0), 0).unwrap();
    auto_enter_signal(&mut store, &signal(2, high, 50, 0), 0).unwrap();
    auto_enter_signal(&mut store, &signal(3, low, 50, 0), 0).unwrap();
    let board = get_contest_leaderboard(&store, id).unwrap();
    let order: Vec<Address> = board.iter().map(|e| e.provider).collect();
    assert_eq!(order, vec![low, high, contract]);
}

#[test]
fn signals_outside_the_window_are_not_entered() {
    let mut store = ContestStore::new();
    let p = account(1);
    let id = create_contest(&mut store, String::from("x"), 100, 200, ContestMetric::HighestROI, 1, 0, 0).unwrap();
    auto_enter_signal(&mut store, &signal(1, p, 5, 50), 50).unwrap();
    assert!(get_contest(&store, id).unwrap().entries.is_empty());
    auto_enter_signal(&mut store, &signal(2, p, 5, 150), 150).unwrap();
    auto_enter_signal(&mut store, &signal(3, p, 7, 201), 201).unwrap();
    let c = get_contest(&store, id).unwrap();
    let e = entry_of(c, &p).unwrap();
    assert_eq!(e.signals_submitted, vec![2]);
    assert_eq!(e.total_roi, 5);
}

#[test]
fn success_rate_metric_scores_by_rate() {
    let mut store = ContestStore::new();
    let p = account(1);
    let id = create_contest(&mut store, String::from("x"), 0, 10, ContestMetric::BestSuccessRate, 1, 0, 0).unwrap();
    let mut s = signal(1, p, 5, 0);
    s.successful_executions = 1;
    auto_enter_signal(&mut store, &s, 0).unwrap();
    let mut s2 = signal(2, p, 5, 0);
    s2.successful_executions = 1;
    auto_enter_signal(&mut store, &s2, 0).unwrap();
    let c = get_contest(&store, id).unwrap();
    let e = entry_of(c, &p).unwrap();
    assert_eq!(e.success_rate, 50);
    assert_eq!(e.score, 50);
    assert_eq!(e.total_volume, 2000);
}

#[test]
fn followers_metric_scores_zero() {
    let mut store = ContestStore::new();
    let p = account(1);
    let id = create_contest(&mut store, String::from("x"), 0, 10, ContestMetric::MostFollowers, 1, 0, 0).unwrap();
    auto_enter_signal(&mut store, &signal(1, p, 5, 0), 0).unwrap();
    assert_eq!(entry_of(get_contest(&store, id).unwrap(), &p).unwrap().score, 0);
}

#[test]
fn contest_error_codes() {
    assert_eq!(ContestError::ContestNotFound.code(), 800);
    assert_eq!(ContestError::NotQualified.code(), 805);
}

#[test]
fn active_list_is_created_less_finalized() {
    let mut store = ContestStore::new();
    let a = create_contest(&mut store, String::from("a"), 0, 10, ContestMetric::MostVolume, 1, 0, 0).unwrap();
    let b = create_contest(&mut store, String::from("b"), 0, 20, ContestMetric::MostVolume, 1, 0, 0).unwrap();
    assert!(create_contest(&mut store, String::from("bad"), 5, 5, ContestMetric::MostVolume, 1, 0, 0).is_err());
    auto_enter_signal(&mut store, &signal(1, account(1), 5, 3), 3).unwrap();
    let c = create_contest(&mut store, String::from("c"), 0, 30, ContestMetric::MostVolume, 1, 0, 0).unwrap();
    assert!(finalize_contest(&mut store, b, 15).is_err());
    finalize_contest(&mut store, a, 10).unwrap();
    assert_eq!(get_active_contests(&store).clone(), vec![b, c]);
    for id in get_active_contests(&store).clone() {
        assert_eq!(get_contest(&store, id).unwrap().status, ContestStatus::Active);
    }
    assert_eq!(get_contest(&store, a).unwrap().status, ContestStatus::Finalized);
}

#[test]
fn prizes_only_for_winners_of_finalized_contests() {
    let mut store = ContestStore::new();
    let id = create_contest(&mut store, String::from("p"), 0, 10, ContestMetric::HighestROI, 1, 1000, 0).unwrap();
    auto_enter_signal(&mut store, &signal(1, account(1), 50, 1), 1).unwrap();
    assert_eq!(get_provider_prize(&store, id, account(1)), 0);
    finalize_contest(&mut store, id, 10).unwrap();
    assert_eq!(get_provider_prize(&store, id, account(1)), 500);
    assert_eq!(get_provider_prize(&store, id, account(2)), 0);
}
