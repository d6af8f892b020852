use stellar_swipe::contests::{ContestMetric, ContestStatus};
use stellar_swipe::errors::{AdminError, AssetPairError, ContestError, PerformanceError, TemplateError, VersioningError};
use stellar_swipe::registry::{deduplicate_tags, template_access, template_expiry, validate_asset_pair, SignalRegistry};
use stellar_swipe::types::{Address, ProviderPerformance, RiskLevel, SignalAction, SignalCategory};

fn account(n: u128) -> Address {
    Address { is_contract: false, key_hi: 0, key_lo: n }
}

fn publish(reg: &mut SignalRegistry, provider: Address, category: SignalCategory, tags: &[&str], risk: RiskLevel, now: u64) -> u64 {
    reg.create_signal(
        provider,
        String::from("XLM/USDC"),
        SignalAction::Buy,
        100,
        String::from("why"),
        now + 3600,
        category,
        tags.iter().map(|t| String::from(*t)).collect(),
        risk,
        now,
        Ok(()),
    )
    .unwrap()
}

#[test]
fn signal_ids_are_consecutive_and_stats_start_empty() {
    let mut reg = SignalRegistry::new();
    let p = account(1);
    let a = publish(&mut reg, p, SignalCategory::SwingTrade, &[], RiskLevel::Medium, 0);
    let b = publish(&mut reg, p, SignalCategory::SwingTrade, &[], RiskLevel::Medium, 0);
    assert_eq!((a, b), (1, 2));
    assert_eq!(reg.get_signal(2).unwrap().id, 2);
    assert!(reg.get_signal(3).is_none());
    assert_eq!(
        reg.get_provider_stats(p),
        Some(ProviderPerformance { success_rate: 0, avg_return: 0, total_volume: 0 })
    );
    assert_eq!(reg.get_provider_performance(account(2)), None);
}

#[test]
fn failed_checks_publish_nothing() {
    let mut reg = SignalRegistry::new();
    let r = reg.create_signal(
        account(1),
        String::from("bad"),
        SignalAction::Sell,
        1,
        String::from(""),
        10,
        SignalCategory::Scalping,
        Vec::new(),
        RiskLevel::High,
        0,
        Err(AdminError::TradingPaused),
    );
    assert_eq!(r, Err(AdminError::TradingPaused));
    assert_eq!(reg.signal_counter, 0);
    assert!(reg.signals.is_empty());
}

#[test]
fn asset_pair_failures_map_to_invalid_asset_pair() {
    assert_eq!(validate_asset_pair(Ok(())), Ok(()));
    assert_eq!(validate_asset_pair(Err(AssetPairError::SameAssets)), Err(AdminError::InvalidAssetPair));
    assert_eq!(validate_asset_pair(Err(AssetPairError::InvalidIssuer)), Err(AdminError::InvalidAssetPair));
    assert_eq!(AdminError::InvalidAssetPair.code(), 11);
}

#[test]
fn new_signals_enter_running_contests() {
    let mut reg = SignalRegistry::new();
    let p = account(4);
    let id = reg
        .create_contest(String::from("weekly"), 0, 1000, ContestMetric::MostVolume, 1, 100, 0)
        .unwrap();
    publish(&mut reg, p, SignalCategory::SwingTrade, &[], RiskLevel::Medium, 10);
    let c = reg.get_contest(id).unwrap();
    assert_eq!(c.entries.len(), 1);
    assert_eq!(c.entries[0].provider, p);
    assert_eq!(c.entries[0].signals_submitted, vec![1]);
    assert_eq!(reg.get_active_contests().clone(), vec![id]);
    let board = reg.get_contest_leaderboard(id).unwrap();
    assert_eq!(board.len(), 1);
    assert_eq!(reg.finalize_contest(id, 999), Err(ContestError::ContestNotEnded));
    assert_eq!(reg.finalize_contest(id, 1000).unwrap(), vec![p]);
    assert_eq!(reg.get_contest(id).unwrap().status, ContestStatus::Finalized);
    assert_eq!(reg.get_provider_prize(id, p), 50);
}

#[test]
fn filtered_feed_matches_filters_in_id_order_and_paginates() {
    let mut reg = SignalRegistry::new();
    let p = account(1);
    publish(&mut reg, p, SignalCategory::SwingTrade, &["defi"], RiskLevel::Low, 0);
    publish(&mut reg, p, SignalCategory::DayTrade, &["xlm", "defi"], RiskLevel::High, 0);
    publish(&mut reg, p, SignalCategory::SwingTrade, &["xlm"], RiskLevel::High, 0);
    publish(&mut reg, p, SignalCategory::LongTerm, &[], RiskLevel::Medium, 0);
    let ids = |v: Vec<stellar_swipe::types::Signal>| v.iter().map(|s| s.id).collect::<Vec<u64>>();
    assert_eq!(ids(reg.get_signals_filtered(None, None, None, 0, 10, 10)), vec![1, 2, 3, 4]);
    assert_eq!(ids(reg.get_signals_filtered(None, None, None, 1, 2, 10)), vec![2, 3]);
    assert_eq!(ids(reg.get_signals_filtered(None, None, None, 9, 2, 10)), Vec::<u64>::new());
    assert_eq!(
        ids(reg.get_signals_filtered(Some(vec![SignalCategory::SwingTrade]), None, None, 0, 10, 10)),
        vec![1, 3]
    );
    assert_eq!(ids(reg.get_signals_filtered(None, Some(vec![String::from("xlm")]), None, 0, 10, 10)), vec![2, 3]);
    assert_eq!(
        ids(reg.get_signals_filtered(None, Some(vec![String::from("defi")]), Some(vec![RiskLevel::High]), 0, 10, 10)),
        vec![2]
    );
    assert_eq!(ids(reg.get_signals_filtered(None, None, None, 0, 10, 3600)), Vec::<u64>::new());
}

#[test]
fn top_providers_rank_by_success_rate() {
    let mut reg = SignalRegistry::new();
    let (a, b, c) = (account(3), account(1), account(2));
    reg.provider_stats.push((a, ProviderPerformance { success_rate: 70, avg_return: 1, total_volume: 1 }));
    reg.provider_stats.push((b, ProviderPerformance { success_rate: 50, avg_return: 1, total_volume: 1 }));
    reg.provider_stats.push((c, ProviderPerformance { success_rate: 70, avg_return: 2, total_volume: 2 }));
    let top: Vec<Address> = reg.get_top_providers(10).iter().map(|x| x.0).collect();
    assert_eq!(top, vec![c, a, b]);
    let top2: Vec<Address> = reg.get_top_providers(2).iter().map(|x| x.0).collect();
    assert_eq!(top2, vec![c, a]);
    assert!(reg.get_top_providers(0).is_empty());
}

#[test]
fn registry_revisions_store_only_accepted_changes() {
    let mut reg = SignalRegistry::new();
    let p = account(1);
    let id = publish(&mut reg, p, SignalCategory::SwingTrade, &[], RiskLevel::Low, 4000);
    assert_eq!(reg.update_signal(99, p, Some(5), None, None, 4000), Err(VersioningError::VersionNotFound));
    assert_eq!(reg.update_signal(id, p, Some(5), None, Some(4000), 4000), Err(VersioningError::InvalidExpiry));
    assert_eq!(reg.get_signal(id).unwrap().price, 100);
    // A refused revision leaves nothing archived.
    assert!(reg.get_signal_history(id).is_empty());
    assert_eq!(reg.update_signal(id, p, Some(0), None, None, 4000), Err(VersioningError::InvalidPrice));
    assert!(reg.get_signal_history(id).is_empty());
    assert_eq!(reg.update_signal(id, p, Some(5), None, None, 4000), Ok(2));
    assert_eq!(reg.get_signal(id).unwrap().price, 5);
    assert_eq!(reg.get_signal_history(id).len(), 1);
    let user = account(8);
    reg.record_signal_copy(user, id, 4100);
    assert_eq!(reg.get_copy_record(user, id).unwrap().version, 2);
    assert!(reg.get_pending_updates(user, id).is_empty());
    reg.mark_update_notified(user, id, 3);
    assert_eq!(reg.get_copy_record(user, id).unwrap().notified_of_updates, vec![3]);
}

#[test]
fn counters_advance_by_one() {
    let mut reg = SignalRegistry::new();
    assert_eq!(reg.next_signal_id(), 1);
    assert_eq!(reg.next_trade_id(), 1);
    assert_eq!(reg.next_trade_id(), 2);
    assert_eq!(reg.signal_counter, 1);
}

fn strings(v: &[&str]) -> Vec<String> {
    v.iter().map(|t| String::from(*t)).collect()
}

#[test]
fn published_tags_keep_first_occurrences() {
    let mut reg = SignalRegistry::new();
    let id = publish(&mut reg, account(1), SignalCategory::DayTrade, &["defi", "xlm", "defi", "usdc", "xlm"], RiskLevel::Low, 0);
    assert_eq!(reg.get_signal(id).unwrap().tags, strings(&["defi", "xlm", "usdc"]));
    assert_eq!(deduplicate_tags(&strings(&["a", "a", "a"])), strings(&["a"]));
    assert_eq!(deduplicate_tags(&Vec::new()), Vec::<String>::new());
}

#[test]
fn adding_tags_merges_and_checks_owner_and_count() {
    let mut reg = SignalRegistry::new();
    let owner = account(1);
    let id = publish(&mut reg, owner, SignalCategory::DayTrade, &["defi", "xlm"], RiskLevel::Low, 0);
    assert_eq!(reg.add_tags_to_signal(owner, 99, strings(&["a"]), Ok(())), Err(AdminError::InvalidParameter));
    assert_eq!(reg.add_tags_to_signal(account(2), id, strings(&["a"]), Ok(())), Err(AdminError::Unauthorized));
    assert_eq!(
        reg.add_tags_to_signal(owner, id, strings(&["a"]), Err(AdminError::InvalidParameter)),
        Err(AdminError::InvalidParameter)
    );
    assert_eq!(reg.add_tags_to_signal(owner, id, strings(&["xlm", "new"]), Ok(())), Ok(()));
    assert_eq!(reg.get_signal(id).unwrap().tags, strings(&["defi", "xlm", "new"]));
    // Three tags held; eight more would make eleven.
    let eight = strings(&["1", "2", "3", "4", "5", "6", "7", "8"]);
    assert_eq!(reg.add_tags_to_signal(owner, id, eight, Ok(())), Err(AdminError::InvalidParameter));
    let seven = strings(&["1", "2", "3", "4", "5", "6", "7"]);
    assert_eq!(reg.add_tags_to_signal(owner, id, seven, Ok(())), Ok(()));
    assert_eq!(reg.get_signal(id).unwrap().tags.len(), 10);
}

#[test]
fn collaborative_signal_waits_for_approval() {
    let mut reg = SignalRegistry::new();
    let author = account(1);
    let id = reg
        .create_collaborative_signal(author, String::from("XLM/USDC"), SignalAction::Buy, 100, String::from("joint"), 3600, 0, Ok(()), Ok(()))
        .unwrap();
    assert_eq!(id, 1);
    let s = reg.get_signal(id).unwrap();
    assert!(s.is_collaborative);
    assert_eq!(s.status, stellar_swipe::types::SignalStatus::Pending);
    assert_eq!(s.category, SignalCategory::SwingTrade);
    assert_eq!(s.risk_level, RiskLevel::Medium);
    assert!(s.tags.is_empty());
    // Not everyone has approved yet.
    assert_eq!(reg.approve_collaborative_signal(id, Ok(false)), Ok(()));
    assert_eq!(reg.get_signal(id).unwrap().status, stellar_swipe::types::SignalStatus::Pending);
    assert_eq!(reg.approve_collaborative_signal(id, Err(AdminError::Unauthorized)), Err(AdminError::Unauthorized));
    assert_eq!(reg.approve_collaborative_signal(id, Ok(true)), Ok(()));
    assert_eq!(reg.get_signal(id).unwrap().status, stellar_swipe::types::SignalStatus::Active);
    assert_eq!(reg.approve_collaborative_signal(42, Ok(true)), Err(AdminError::InvalidParameter));
}

#[test]
fn collaborative_signal_refused_by_checks() {
    let mut reg = SignalRegistry::new();
    let r = reg.create_collaborative_signal(
        account(1),
        String::from("XLM/USDC"),
        SignalAction::Sell,
        100,
        String::from("joint"),
        3600,
        0,
        Err(AdminError::TradingPaused),
        Err(AdminError::InvalidParameter),
    );
    assert_eq!(r, Err(AdminError::TradingPaused));
    assert!(reg.get_signal(1).is_none());
}

#[test]
fn failed_registration_publishes_nothing() {
    let mut reg = SignalRegistry::new();
    let r = reg.create_collaborative_signal(
        account(1),
        String::from("XLM/USDC"),
        SignalAction::Sell,
        100,
        String::from("joint"),
        3600,
        0,
        Ok(()),
        Err(AdminError::InvalidParameter),
    );
    assert_eq!(r, Err(AdminError::InvalidParameter));
    assert!(reg.get_signal(1).is_none());
    assert_eq!(reg.signal_counter, 0);
    assert_eq!(reg.get_provider_stats(account(1)), None);
}

#[test]
fn trade_reports_are_checked_in_order() {
    let mut reg = SignalRegistry::new();
    let id = publish(&mut reg, account(1), SignalCategory::Scalping, &[], RiskLevel::High, 0);
    assert_eq!(reg.check_trade(99, 0, 10, 0), Err(PerformanceError::InvalidPrice));
    assert_eq!(reg.check_trade(99, 10, -1, 5), Err(PerformanceError::InvalidPrice));
    assert_eq!(reg.check_trade(99, 10, 12, 0), Err(PerformanceError::InvalidVolume));
    assert_eq!(reg.check_trade(99, 10, 12, 5), Err(PerformanceError::SignalNotFound));
    assert_eq!(reg.check_trade(id, 10, 12, 5), Ok(()));
}

#[test]
fn template_access_and_expiry() {
    let owner = account(1);
    assert_eq!(template_access(false, owner, account(2)), Err(TemplateError::PrivateTemplate));
    assert_eq!(template_access(false, owner, owner), Ok(()));
    assert_eq!(template_access(true, owner, account(2)), Ok(()));
    assert_eq!(template_expiry(1000, 24), Ok(1000 + 24 * 3600));
    assert_eq!(template_expiry(1000, 720), Ok(1000 + 30 * 24 * 3600));
    assert_eq!(template_expiry(1000, 721), Err(TemplateError::InvalidExpiry));
    assert_eq!(template_expiry(u64::MAX - 10, 1), Err(TemplateError::InvalidExpiry));
}

#[test]
fn recording_a_trade_replaces_the_signal_and_stats() {
    let mut reg = SignalRegistry::new();
    let p = account(1);
    let id = publish(&mut reg, p, SignalCategory::Scalping, &[], RiskLevel::High, 0);
    let mut updated = updated_copy(reg.get_signal(id).unwrap());
    updated.executions = 1;
    updated.total_volume = 500;
    let stats = ProviderPerformance { success_rate: 100, avg_return: 7, total_volume: 500 };
    assert_eq!(reg.record_trade(id, 0, 5, 5, updated_copy(&updated), Some(stats)), Err(PerformanceError::InvalidPrice));
    assert_eq!(reg.get_signal(id).unwrap().executions, 0);
    assert_eq!(reg.record_trade(99, 5, 5, 5, updated_copy(&updated), Some(stats)), Err(PerformanceError::SignalNotFound));
    assert_eq!(reg.record_trade(id, 5, 6, 5, updated_copy(&updated), Some(stats)), Ok(()));
    assert_eq!(reg.get_signal(id).unwrap().executions, 1);
    assert_eq!(reg.get_signal(id).unwrap().total_volume, 500);
    assert_eq!(reg.get_provider_stats(p), Some(stats));
    assert_eq!(reg.record_trade(id, 5, 6, 5, updated_copy(&updated), None), Ok(()));
    assert_eq!(reg.get_provider_stats(p), Some(stats));
}

#[test]
fn publishing_from_a_template() {
    let mut reg = SignalRegistry::new();
    let owner = account(1);
    let other = account(2);
    let go = |reg: &mut SignalRegistry, public: bool, who: Address, pair: Option<&str>, hours: u32, checks: Result<(), AdminError>| {
        reg.publish_from_template(
            public,
            owner,
            who,
            pair.map(String::from),
            Ok(()),
            Ok(SignalAction::Buy),
            Ok(120),
            Ok(String::from("filled in")),
            hours,
            1000,
            checks,
        )
    };
    assert_eq!(go(&mut reg, false, other, Some("XLM/USDC"), 24, Ok(())), Err(TemplateError::PrivateTemplate));
    assert_eq!(go(&mut reg, true, other, None, 24, Ok(())), Err(TemplateError::MissingVariable));
    assert_eq!(go(&mut reg, true, other, Some("XLM/USDC"), 721, Ok(())), Err(TemplateError::InvalidExpiry));
    assert_eq!(go(&mut reg, true, other, Some("XLM/USDC"), 24, Err(AdminError::TradingPaused)), Err(TemplateError::InvalidTemplate));
    assert_eq!(
        reg.publish_from_template(true, owner, other, Some(String::from("XLM/USDC")), Err(AdminError::InvalidAssetPair),
            Err(TemplateError::InvalidAction), Ok(1), Ok(String::new()), 24, 1000, Ok(())),
        Err(TemplateError::InvalidTemplate)
    );
    assert_eq!(
        reg.publish_from_template(true, owner, other, Some(String::from("XLM/USDC")), Ok(()),
            Err(TemplateError::InvalidAction), Err(TemplateError::MissingVariable), Ok(String::new()), 24, 1000, Ok(())),
        Err(TemplateError::InvalidAction)
    );
    assert_eq!(reg.signal_counter, 0);
    assert_eq!(go(&mut reg, false, owner, Some("XLM/USDC"), 24, Ok(())), Ok(1));
    let s = reg.get_signal(1).unwrap();
    assert_eq!(s.expiry, 1000 + 24 * 3600);
    assert_eq!(s.price, 120);
    assert_eq!(s.category, SignalCategory::SwingTrade);
    assert_eq!(s.risk_level, RiskLevel::Medium);
    assert_eq!(s.rationale, "filled in");
}

fn updated_copy(s: &stellar_swipe::types::Signal) -> stellar_swipe::types::Signal {
    stellar_swipe::types::Signal {
        id: s.id,
        provider: s.provider,
        asset_pair: s.asset_pair.clone(),
        action: s.action,
        price: s.price,
        rationale: s.rationale.clone(),
        timestamp: s.timestamp,
        expiry: s.expiry,
        status: s.status,
        executions: s.executions,
        successful_executions: s.successful_executions,
        total_volume: s.total_volume,
        total_roi: s.total_roi,
        category: s.category,
        tags: s.tags.clone(),
        risk_level: s.risk_level,
        is_collaborative: s.is_collaborative,
    }
}
