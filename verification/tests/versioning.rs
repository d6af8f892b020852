use stellar_swipe::errors::VersioningError;
use stellar_swipe::types::{Address, RiskLevel, Signal, SignalAction, SignalCategory, SignalStatus};
use stellar_swipe::versioning::{
    get_copy_record, get_latest_version, get_pending_updates, get_signal_history,
    get_update_count, mark_notified, record_copy, update_signal, VersionStore,
};

fn account(n: u128) -> Address {
    Address { is_contract: false, key_hi: 0, key_lo: n }
}

fn active_signal(provider: Address, expiry: u64) -> Signal {
    Signal {
        id: 1,
        provider,
        asset_pair: String::from("XLM/USDC"),
        action: SignalAction::Sell,
        price: 100,
        rationale: String::from("first take"),
        timestamp: 0,
        expiry,
        status: SignalStatus::Active,
        executions: 0,
        successful_executions: 0,
        total_volume: 0,
        total_roi: 0,
        category: SignalCategory::DayTrade,
        tags: Vec::new(),
        risk_level: RiskLevel::Low,
        is_collaborative: false,
    }
}

#[test]
fn revision_archives_previous_state_and_bumps_version() {
    let mut store = VersionStore::new();
    let owner = account(1);
    let mut s = active_signal(owner, 100_000);
    let v = update_signal(&mut store, 1, &owner, Some(120), Some(String::from("second take")), None, &mut s, 5000).unwrap();
    assert_eq!(v, 2);
    assert_eq!(s.price, 120);
    assert_eq!(s.rationale, "second take");
    assert_eq!(s.expiry, 100_000);
    assert_eq!(get_latest_version(&store, 1), 2);
    assert_eq!(get_update_count(&store, 1), 1);
    let history = get_signal_history(&store, 1);
    assert_eq!(history.len(), 1);
    assert_eq!(history[0].version, 1);
    assert_eq!(history[0].price, 100);
    assert_eq!(history[0].rationale, "first take");
    assert_eq!(history[0].updated_at, 5000);
    assert_eq!(history[0].updated_by, owner);
}

#[test]
fn revisions_must_be_an_hour_apart() {
    let mut store = VersionStore::new();
    let owner = account(1);
    let mut s = active_signal(owner, 1_000_000);
    update_signal(&mut store, 1, &owner, Some(101), None, None, &mut s, 4000).unwrap();
    let r = update_signal(&mut store, 1, &owner, Some(102), None, None, &mut s, 4000 + 3599);
    assert_eq!(r, Err(VersioningError::UpdateCooldown));
    assert_eq!(s.price, 101);
    let r = update_signal(&mut store, 1, &owner, Some(102), None, None, &mut s, 4000 + 3600);
    assert_eq!(r, Ok(3));
}

#[test]
fn first_revision_needs_an_hour_after_time_zero() {
    let mut store = VersionStore::new();
    let owner = account(1);
    let mut s = active_signal(owner, 1_000_000);
    let r = update_signal(&mut store, 1, &owner, Some(5), None, None, &mut s, 3599);
    assert_eq!(r, Err(VersioningError::UpdateCooldown));
}

#[test]
fn at_most_five_revisions() {
    let mut store = VersionStore::new();
    let owner = account(1);
    let mut s = active_signal(owner, 10_000_000);
    let mut now = 3600;
    for expected in 2..=6u32 {
        assert_eq!(update_signal(&mut store, 1, &owner, None, None, None, &mut s, now), Ok(expected));
        now += 3600;
    }
    assert_eq!(
        update_signal(&mut store, 1, &owner, None, None, None, &mut s, now),
        Err(VersioningError::MaxUpdatesReached)
    );
    assert_eq!(get_update_count(&store, 1), 5);
    assert_eq!(get_signal_history(&store, 1).len(), 5);
}

#[test]
fn refusals_change_nothing() {
    let mut store = VersionStore::new();
    let owner = account(1);
    let stranger = account(2);
    let mut s = active_signal(owner, 10_000);
    assert_eq!(
        update_signal(&mut store, 1, &stranger, Some(5), None, None, &mut s, 3600),
        Err(VersioningError::NotSignalOwner)
    );
    assert_eq!(
        update_signal(&mut store, 1, &owner, Some(5), None, None, &mut s, 10_000),
        Err(VersioningError::SignalExpired)
    );
    s.status = SignalStatus::Expired;
    assert_eq!(
        update_signal(&mut store, 1, &owner, Some(5), None, None, &mut s, 3600),
        Err(VersioningError::CannotUpdateInactive)
    );
    assert_eq!(s.price, 100);
    assert!(store.versions.is_empty());
    assert!(store.tracks.is_empty());
}

#[test]
fn bad_price_archives_but_keeps_signal() {
    let mut store = VersionStore::new();
    let owner = account(1);
    let mut s = active_signal(owner, 10_000);
    assert_eq!(
        update_signal(&mut store, 1, &owner, Some(0), Some(String::from("x")), None, &mut s, 3600),
        Err(VersioningError::InvalidPrice)
    );
    assert_eq!(s.price, 100);
    assert_eq!(s.rationale, "first take");
    assert_eq!(get_signal_history(&store, 1).len(), 1);
    assert_eq!(get_latest_version(&store, 1), 1);
}

#[test]
fn bad_expiry_applies_price_but_not_expiry() {
    let mut store = VersionStore::new();
    let owner = account(1);
    let mut s = active_signal(owner, 10_000);
    assert_eq!(
        update_signal(&mut store, 1, &owner, Some(7), None, Some(3600), &mut s, 3600),
        Err(VersioningError::InvalidExpiry)
    );
    assert_eq!(s.price, 7);
    assert_eq!(s.expiry, 10_000);
    assert_eq!(get_update_count(&store, 1), 0);
}

#[test]
fn pending_updates_skip_notified_versions() {
    let mut store = VersionStore::new();
    let owner = account(1);
    let user = account(9);
    assert!(get_pending_updates(&store, &user, 1).is_empty());
    record_copy(&mut store, &user, 1, 1, 10);
    let rec = get_copy_record(&store, &user, 1).unwrap();
    assert_eq!(rec.version, 1);
    assert_eq!(rec.copied_at, 10);
    assert!(rec.notified_of_updates.is_empty());
    let mut s = active_signal(owner, 10_000_000);
    update_signal(&mut store, 1, &owner, Some(2), None, None, &mut s, 3600).unwrap();
    update_signal(&mut store, 1, &owner, Some(3), None, None, &mut s, 7200).unwrap();
    assert_eq!(get_pending_updates(&store, &user, 1), vec![2, 3]);
    mark_notified(&mut store, &user, 1, 2);
    mark_notified(&mut store, &user, 1, 2);
    assert_eq!(get_copy_record(&store, &user, 1).unwrap().notified_of_updates, vec![2]);
    assert_eq!(get_pending_updates(&store, &user, 1), vec![3]);
    mark_notified(&mut store, &account(5), 1, 3);
    assert!(get_copy_record(&store, &account(5), 1).is_none());
}

#[test]
fn versioning_error_codes() {
    assert_eq!(VersioningError::NotSignalOwner.code(), 900);
    assert_eq!(VersioningError::VersionNotFound.code(), 907);
}
