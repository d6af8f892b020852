//! Signal versioning: a provider may revise an active signal's price,
//! rationale or expiry at most five times, at least an hour apart; each
//! revision archives the previous state as a numbered version, and users who
//! copied a signal can see which later versions they have not been told of.

use vstd::prelude::*;
use crate::errors::VersioningError;
use crate::keyed::{keyed, keys_distinct, lemma_keyed_absent, lemma_keyed_at, lemma_keyed_push, lemma_keyed_update};
use crate::types::{Address, Signal, SignalStatus, SignalView};

verus! {

/// How many times one signal may be revised.
pub const MAX_UPDATES_PER_SIGNAL: u32 = 5;

/// Least time between two revisions of one signal, in seconds.
pub const UPDATE_COOLDOWN_SECONDS: u64 = 3600;

/// An archived state of a signal.
#[derive(Debug)]
pub struct SignalVersion {
    pub version: u32,
    pub signal_id: u64,
    pub price: i128,
    pub rationale: String,
    pub expiry: u64,
    pub updated_at: u64,
    pub updated_by: Address,
}

pub struct SignalVersionView {
    pub version: u32,
    pub signal_id: u64,
    pub price: i128,
    pub rationale: Seq<char>,
    pub expiry: u64,
    pub updated_at: u64,
    pub updated_by: Address,
}

impl View for SignalVersion {
    type V = SignalVersionView;

    open spec fn view(&self) -> SignalVersionView {
        SignalVersionView {
            version: self.version,
            signal_id: self.signal_id,
            price: self.price,
            rationale: self.rationale@,
            expiry: self.expiry,
            updated_at: self.updated_at,
            updated_by: self.updated_by,
        }
    }
}

/// A user's copy of a signal, with the versions the user has been told of.
#[derive(Debug)]
pub struct CopyRecord {
    pub user: Address,
    pub signal_id: u64,
    pub version: u32,
    pub copied_at: u64,
    pub notified_of_updates: Vec<u32>,
}

pub struct CopyRecordView {
    pub user: Address,
    pub signal_id: u64,
    pub version: u32,
    pub copied_at: u64,
    pub notified_of_updates: Seq<u32>,
}

impl View for CopyRecord {
    type V = CopyRecordView;

    open spec fn view(&self) -> CopyRecordView {
        CopyRecordView {
            user: self.user,
            signal_id: self.signal_id,
            version: self.version,
            copied_at: self.copied_at,
            notified_of_updates: self.notified_of_updates@,
        }
    }
}

/// Storage keys of the versioning module.
#[derive(Copy, Clone, Debug, PartialEq, Eq, Structural)]
pub enum VersioningStorageKey {
    SignalVersions(u64, u32),
    LatestVersion(u64),
    UpdateCount(u64),
    LastUpdateTime(u64),
    CopyRecords(Address, u64),
}

/// Revision bookkeeping of one signal: its latest version number, how often
/// it was revised, and when last.
#[derive(Copy, Clone, Debug, PartialEq, Eq, Structural)]
pub struct UpdateTrack {
    pub signal_id: u64,
    pub latest_version: u32,
    pub update_count: u32,
    pub last_update: u64,
}

/// All versioning state.
#[derive(Debug)]
pub struct VersionStore {
    pub tracks: Vec<UpdateTrack>,
    pub versions: Vec<SignalVersion>,
    pub copies: Vec<CopyRecord>,
}

pub open spec fn track_key() -> spec_fn(UpdateTrack) -> u64 {
    |t: UpdateTrack| t.signal_id
}

pub open spec fn version_key() -> spec_fn(SignalVersionView) -> (u64, u32) {
    |v: SignalVersionView| (v.signal_id, v.version)
}

pub open spec fn copy_key() -> spec_fn(CopyRecordView) -> (Address, u64) {
    |c: CopyRecordView| (c.user, c.signal_id)
}

pub open spec fn version_views(v: Seq<SignalVersion>) -> Seq<SignalVersionView> {
    Seq::new(v.len(), |i: int| v[i]@)
}

pub open spec fn copy_views(v: Seq<CopyRecord>) -> Seq<CopyRecordView> {
    Seq::new(v.len(), |i: int| v[i]@)
}

impl VersionStore {
    pub open spec fn track_map(&self) -> Map<u64, UpdateTrack> {
        keyed(self.tracks@, track_key())
    }

    /// Archived versions by (signal, version number).
    pub open spec fn version_map(&self) -> Map<(u64, u32), SignalVersionView> {
        keyed(version_views(self.versions@), version_key())
    }

    /// Copy records by (user, signal).
    pub open spec fn copy_map(&self) -> Map<(Address, u64), CopyRecordView> {
        keyed(copy_views(self.copies@), copy_key())
    }

    /// The signal's latest version number (1 before any revision).
    pub open spec fn latest_of(&self, signal_id: u64) -> u32 {
        if self.track_map().contains_key(signal_id) {
            self.track_map()[signal_id].latest_version
        } else {
            1
        }
    }

    /// How often the signal was revised.
    pub open spec fn count_of(&self, signal_id: u64) -> u32 {
        if self.track_map().contains_key(signal_id) {
            self.track_map()[signal_id].update_count
        } else {
            0
        }
    }

    /// When the signal was last revised (0 before any revision).
    pub open spec fn last_update_of(&self, signal_id: u64) -> u64 {
        if self.track_map().contains_key(signal_id) {
            self.track_map()[signal_id].last_update
        } else {
            0
        }
    }

    /// The store's invariant: keys are unique, and each signal's latest
    /// version is one more than its revision count, which is at most five.
    pub open spec fn wf(&self) -> bool {
        &&& keys_distinct(self.tracks@, track_key())
        &&& keys_distinct(version_views(self.versions@), version_key())
        &&& keys_distinct(copy_views(self.copies@), copy_key())
        &&& forall|i: int|
            0 <= i < self.tracks@.len() ==> (#[trigger] self.tracks@[i]).latest_version
                == self.tracks@[i].update_count + 1 && self.tracks@[i].update_count
                <= MAX_UPDATES_PER_SIGNAL
    }

    /// A store with no revisions and no copies.
    pub fn new() -> (s: Self)
        ensures
            s.wf(),
            s.track_map() == Map::<u64, UpdateTrack>::empty(),
            s.version_map() == Map::<(u64, u32), SignalVersionView>::empty(),
            s.copy_map() == Map::<(Address, u64), CopyRecordView>::empty(),
    {
        let s = VersionStore { tracks: Vec::new(), versions: Vec::new(), copies: Vec::new() };
        assert(s.track_map() =~= Map::<u64, UpdateTrack>::empty());
        assert(s.version_map() =~= Map::<(u64, u32), SignalVersionView>::empty());
        assert(s.copy_map() =~= Map::<(Address, u64), CopyRecordView>::empty());
        s
    }
}

/// Why a revision of a signal is refused before anything is recorded.
pub open spec fn update_refusal(
    store: VersionStore,
    signal_id: u64,
    updater: Address,
    signal: SignalView,
    now: u64,
) -> Option<VersioningError> {
    if signal.provider != updater {
        Some(VersioningError::NotSignalOwner)
    } else if signal.status != SignalStatus::Active {
        Some(VersioningError::CannotUpdateInactive)
    } else if store.count_of(signal_id) >= MAX_UPDATES_PER_SIGNAL {
        Some(VersioningError::MaxUpdatesReached)
    } else if now < store.last_update_of(signal_id) + UPDATE_COOLDOWN_SECONDS {
        Some(VersioningError::UpdateCooldown)
    } else if now >= signal.expiry {
        Some(VersioningError::SignalExpired)
    } else {
        None
    }
}

/// The archived copy of the signal's state before a revision.
pub open spec fn snapshot(
    signal: SignalView,
    signal_id: u64,
    version: u32,
    updater: Address,
    now: u64,
) -> SignalVersionView {
    SignalVersionView {
        version,
        signal_id,
        price: signal.price,
        rationale: signal.rationale,
        expiry: signal.expiry,
        updated_at: now,
        updated_by: updater,
    }
}

pub open spec fn rationale_text(r: Option<String>) -> Option<Seq<char>> {
    match r {
        Some(s) => Some(s@),
        None => None,
    }
}

/// The signal with the given changes applied.
pub open spec fn revised(
    signal: SignalView,
    price: Option<i128>,
    rationale: Option<Seq<char>>,
    expiry: Option<u64>,
) -> SignalView {
    SignalView {
        price: match price {
            Some(p) => p,
            None => signal.price,
        },
        rationale: match rationale {
            Some(r) => r,
            None => signal.rationale,
        },
        expiry: match expiry {
            Some(e) => e,
            None => signal.expiry,
        },
        ..signal
    }
}

/// What a revision request does to the versioning store and what it returns.
pub open spec fn update_outcome(
    s0: VersionStore,
    s1: VersionStore,
    signal_id: u64,
    updater: Address,
    new_price: Option<i128>,
    new_rationale: Option<Seq<char>>,
    new_expiry: Option<u64>,
    signal: SignalView,
    now: u64,
    r: Result<u32, VersioningError>,
) -> bool {
    let refusal = update_refusal(s0, signal_id, updater, signal, now);
    let archived = s0.version_map().insert(
        (signal_id, s0.latest_of(signal_id)),
        snapshot(signal, signal_id, s0.latest_of(signal_id), updater, now),
    );
    let bad_price = new_price matches Some(p) && p <= 0;
    let bad_expiry = new_expiry matches Some(e) && e <= now;
    if refusal is Some {
        &&& r == Err::<u32, VersioningError>(refusal->Some_0)
        &&& s1 == s0
    } else if bad_price || bad_expiry {
        &&& r == Err::<u32, VersioningError>(
            if bad_price {
                VersioningError::InvalidPrice
            } else {
                VersioningError::InvalidExpiry
            },
        )
        &&& s1.version_map() == archived
        &&& s1.tracks@ == s0.tracks@
        &&& s1.copies@ == s0.copies@
    } else {
        &&& r == Ok::<u32, VersioningError>((s0.latest_of(signal_id) + 1) as u32)
        &&& s1.version_map() == archived
        &&& s1.track_map() == s0.track_map().insert(
            signal_id,
            UpdateTrack {
                signal_id,
                latest_version: (s0.latest_of(signal_id) + 1) as u32,
                update_count: (s0.count_of(signal_id) + 1) as u32,
                last_update: now,
            },
        )
        &&& s1.copies@ == s0.copies@
    }
}

/// The signal as a revision request leaves it: unchanged when refused or
/// when the new price is bad; with price and rationale applied when only
/// the new expiry is bad; fully revised when accepted.
pub open spec fn signal_after_update(
    s0: VersionStore,
    signal_id: u64,
    updater: Address,
    new_price: Option<i128>,
    new_rationale: Option<Seq<char>>,
    new_expiry: Option<u64>,
    signal: SignalView,
    now: u64,
) -> SignalView {
    if update_refusal(s0, signal_id, updater, signal, now) is Some || (new_price matches Some(p) && p
        <= 0) {
        signal
    } else if new_expiry matches Some(e) && e <= now {
        revised(signal, new_price, new_rationale, None)
    } else {
        revised(signal, new_price, new_rationale, new_expiry)
    }
}

fn find_track(tracks: &Vec<UpdateTrack>, signal_id: u64) -> (r: Option<usize>)
    ensures
        match r {
            Some(i) => i < tracks@.len() && tracks@[i as int].signal_id == signal_id,
            None => forall|j: int| 0 <= j < tracks@.len() ==> (#[trigger] tracks@[j]).signal_id != signal_id,
        },
{
    let mut i: usize = 0;
    while i < tracks.len()
        invariant
            i <= tracks@.len(),
            forall|j: int| 0 <= j < i ==> (#[trigger] tracks@[j]).signal_id != signal_id,
        decreases tracks@.len() - i,
    {
        if tracks[i].signal_id == signal_id {
            return Some(i);
        }
        i = i + 1;
    }
    None
}

fn find_version(versions: &Vec<SignalVersion>, signal_id: u64, version: u32) -> (r: Option<usize>)
    ensures
        match r {
            Some(i) => i < versions@.len() && (version_key())(version_views(versions@)[i as int]) == (signal_id, version),
            None => forall|j: int|
                0 <= j < versions@.len() ==> (version_key())(#[trigger] version_views(versions@)[j]) != (signal_id, version),
        },
{
    let mut i: usize = 0;
    while i < versions.len()
        invariant
            i <= versions@.len(),
            forall|j: int|
                0 <= j < i ==> (version_key())(#[trigger] version_views(versions@)[j]) != (signal_id, version),
        decreases versions@.len() - i,
    {
        if versions[i].signal_id == signal_id && versions[i].version == version {
            return Some(i);
        }
        i = i + 1;
    }
    None
}

fn find_copy(copies: &Vec<CopyRecord>, user: &Address, signal_id: u64) -> (r: Option<usize>)
    ensures
        match r {
            Some(i) => i < copies@.len() && (copy_key())(copy_views(copies@)[i as int]) == (*user, signal_id),
            None => forall|j: int|
                0 <= j < copies@.len() ==> (copy_key())(#[trigger] copy_views(copies@)[j]) != (*user, signal_id),
        },
{
    let mut i: usize = 0;
    while i < copies.len()
        invariant
            i <= copies@.len(),
            forall|j: int|
                0 <= j < i ==> (copy_key())(#[trigger] copy_views(copies@)[j]) != (*user, signal_id),
        decreases copies@.len() - i,
    {
        if copies[i].user.same(user) && copies[i].signal_id == signal_id {
            return Some(i);
        }
        i = i + 1;
    }
    None
}

/// Records `t` as the bookkeeping of its signal.
fn set_track(store: &mut VersionStore, t: UpdateTrack)
    requires
        old(store).wf(),
        t.latest_version == t.update_count + 1,
        t.update_count <= MAX_UPDATES_PER_SIGNAL,
    ensures
        final(store).wf(),
        final(store).track_map() == old(store).track_map().insert(t.signal_id, t),
        final(store).versions@ == old(store).versions@,
        final(store).copies@ == old(store).copies@,
{
    let ghost t0 = store.tracks@;
    match find_track(&store.tracks, t.signal_id) {
        Some(i) => {
            store.tracks.set(i, t);
            proof {
                lemma_keyed_update(t0, track_key(), i as int, t);
            }
        },
        None => {
            proof {
                lemma_keyed_absent(t0, track_key(), t.signal_id);
            }
            store.tracks.push(t);
            proof {
                lemma_keyed_push(t0, track_key(), t);
            }
        },
    }
}

/// Archives `v` under its (signal, version number).
fn set_version(store: &mut VersionStore, v: SignalVersion)
    requires
        old(store).wf(),
    ensures
        final(store).wf(),
        final(store).version_map() == old(store).version_map().insert((v.signal_id, v.version), v@),
        final(store).tracks@ == old(store).tracks@,
        final(store).copies@ == old(store).copies@,
{
    let ghost s0 = version_views(store.versions@);
    let ghost vv = v@;
    match find_version(&store.versions, v.signal_id, v.version) {
        Some(i) => {
            store.versions.set(i, v);
            proof {
                assert(version_views(store.versions@) =~= s0.update(i as int, vv));
                lemma_keyed_update(s0, version_key(), i as int, vv);
            }
        },
        None => {
            proof {
                lemma_keyed_absent(s0, version_key(), (vv.signal_id, vv.version));
            }
            store.versions.push(v);
            proof {
                assert(version_views(store.versions@) =~= s0.push(vv));
                lemma_keyed_push(s0, version_key(), vv);
            }
        },
    }
}

/// Stores `c` as the copy record of its (user, signal).
fn set_copy(store: &mut VersionStore, c: CopyRecord)
    requires
        old(store).wf(),
    ensures
        final(store).wf(),
        final(store).copy_map() == old(store).copy_map().insert((c.user, c.signal_id), c@),
        final(store).tracks@ == old(store).tracks@,
        final(store).versions@ == old(store).versions@,
{
    let ghost s0 = copy_views(store.copies@);
    let ghost cv = c@;
    match find_copy(&store.copies, &c.user, c.signal_id) {
        Some(i) => {
            store.copies.set(i, c);
            proof {
                assert(copy_views(store.copies@) =~= s0.update(i as int, cv));
                lemma_keyed_update(s0, copy_key(), i as int, cv);
            }
        },
        None => {
            proof {
                lemma_keyed_absent(s0, copy_key(), (cv.user, cv.signal_id));
            }
            store.copies.push(c);
            proof {
                assert(copy_views(store.copies@) =~= s0.push(cv));
                lemma_keyed_push(s0, copy_key(), cv);
            }
        },
    }
}

/// The signal's latest version number (1 before any revision).
pub fn get_latest_version(store: &VersionStore, signal_id: u64) -> (r: u32)
    requires
        store.wf(),
    ensures
        r == store.latest_of(signal_id),
{
    match find_track(&store.tracks, signal_id) {
        Some(i) => {
            proof {
                lemma_keyed_at(store.tracks@, track_key(), i as int);
            }
            store.tracks[i].latest_version
        },
        None => {
            proof {
                lemma_keyed_absent(store.tracks@, track_key(), signal_id);
            }
            1
        },
    }
}

/// How often the signal was revised.
pub fn get_update_count(store: &VersionStore, signal_id: u64) -> (r: u32)
    requires
        store.wf(),
    ensures
        r == store.count_of(signal_id),
{
    match find_track(&store.tracks, signal_id) {
        Some(i) => {
            proof {
                lemma_keyed_at(store.tracks@, track_key(), i as int);
            }
            store.tracks[i].update_count
        },
        None => {
            proof {
                lemma_keyed_absent(store.tracks@, track_key(), signal_id);
            }
            0
        },
    }
}

/// Why a revision request is refused, if it is: the refusals checked
/// before anything is archived, then an invalid new price, then an invalid
/// new expiry.
pub open spec fn update_error(
    store: VersionStore,
    signal_id: u64,
    updater: Address,
    new_price: Option<i128>,
    new_expiry: Option<u64>,
    signal: SignalView,
    now: u64,
) -> Option<VersioningError> {
    let refusal = update_refusal(store, signal_id, updater, signal, now);
    if refusal is Some {
        refusal
    } else if new_price matches Some(p) && p <= 0 {
        Some(VersioningError::InvalidPrice)
    } else if new_expiry matches Some(e) && e <= now {
        Some(VersioningError::InvalidExpiry)
    } else {
        None
    }
}

/// The refusal, if any, that a revision of `signal` by `updater` at `now`
/// meets before anything is archived.
pub fn update_refused(store: &VersionStore, signal_id: u64, updater: &Address, signal: &Signal, now: u64) -> (r:
    Option<VersioningError>)
    requires
        store.wf(),
        signal.provider == *updater && signal.status == SignalStatus::Active && store.count_of(signal_id)
            < MAX_UPDATES_PER_SIGNAL ==> store.last_update_of(signal_id) + UPDATE_COOLDOWN_SECONDS <= u64::MAX,
    ensures
        r == update_refusal(*store, signal_id, *updater, signal@, now),
{
    if !signal.provider.same(updater) {
        return Some(VersioningError::NotSignalOwner);
    }
    if signal.status != SignalStatus::Active {
        return Some(VersioningError::CannotUpdateInactive);
    }
    let (update_count, last_update) = match find_track(&store.tracks, signal_id) {
        Some(i) => {
            proof {
                lemma_keyed_at(store.tracks@, track_key(), i as int);
            }
            (store.tracks[i].update_count, store.tracks[i].last_update)
        },
        None => {
            proof {
                lemma_keyed_absent(store.tracks@, track_key(), signal_id);
            }
            (0, 0)
        },
    };
    if update_count >= MAX_UPDATES_PER_SIGNAL {
        return Some(VersioningError::MaxUpdatesReached);
    }
    if now < last_update + UPDATE_COOLDOWN_SECONDS {
        return Some(VersioningError::UpdateCooldown);
    }
    if now >= signal.expiry {
        return Some(VersioningError::SignalExpired);
    }
    None
}

/// Revises signal `signal_id` (held in `signal`) at ledger time `now` on
/// behalf of `updater`.  The signal's state before the revision is archived
/// under its current version number; a new price must be positive and a new
/// expiry must lie after `now`.  Returns the new version number.
pub fn update_signal(
    store: &mut VersionStore,
    signal_id: u64,
    updater: &Address,
    new_price: Option<i128>,
    new_rationale: Option<String>,
    new_expiry: Option<u64>,
    signal: &mut Signal,
    now: u64,
) -> (r: Result<u32, VersioningError>)
    requires
        old(store).wf(),
        old(signal).provider == *updater && old(signal).status == SignalStatus::Active
            && old(store).count_of(signal_id) < MAX_UPDATES_PER_SIGNAL ==> old(store).last_update_of(
            signal_id,
        ) + UPDATE_COOLDOWN_SECONDS <= u64::MAX,
    ensures
        final(store).wf(),
        update_outcome(
            *old(store),
            *final(store),
            signal_id,
            *updater,
            new_price,
            rationale_text(new_rationale),
            new_expiry,
            old(signal)@,
            now,
            r,
        ),
        final(signal)@ == signal_after_update(
            *old(store),
            signal_id,
            *updater,
            new_price,
            rationale_text(new_rationale),
            new_expiry,
            old(signal)@,
            now,
        ),
{
    match update_refused(store, signal_id, updater, signal, now) {
        Some(e) => {
            return Err(e);
        },
        None => {},
    }
    let (update_count, current_version) = match find_track(&store.tracks, signal_id) {
        Some(i) => {
            proof {
                lemma_keyed_at(store.tracks@, track_key(), i as int);
            }
            (store.tracks[i].update_count, store.tracks[i].latest_version)
        },
        None => {
            proof {
                lemma_keyed_absent(store.tracks@, track_key(), signal_id);
            }
            (0, 1)
        },
    };
    proof {
        law_revision_count_bounded(store, signal_id);
    }
    let new_version = current_version + 1;
    let record = SignalVersion {
        version: current_version,
        signal_id,
        price: signal.price,
        rationale: signal.rationale.clone(),
        expiry: signal.expiry,
        updated_at: now,
        updated_by: *updater,
    };
    set_version(store, record);
    if let Some(price) = new_price {
        if price <= 0 {
            return Err(VersioningError::InvalidPrice);
        }
        signal.price = price;
    }
    if let Some(rationale) = new_rationale {
        signal.rationale = rationale;
    }
    if let Some(expiry) = new_expiry {
        if expiry <= now {
            return Err(VersioningError::InvalidExpiry);
        }
        signal.expiry = expiry;
    }
    set_track(
        store,
        UpdateTrack {
            signal_id,
            latest_version: new_version,
            update_count: update_count + 1,
            last_update: now,
        },
    );
    Ok(new_version)
}

/// The archived versions 1..=n of a signal that exist, oldest first.
pub open spec fn history_upto(
    vm: Map<(u64, u32), SignalVersionView>,
    signal_id: u64,
    n: nat,
) -> Seq<SignalVersionView>
    decreases n,
{
    if n == 0 {
        Seq::empty()
    } else {
        let earlier = history_upto(vm, signal_id, (n - 1) as nat);
        if vm.contains_key((signal_id, n as u32)) {
            earlier.push(vm[(signal_id, n as u32)])
        } else {
            earlier
        }
    }
}

/// Each signal's latest version number is one more than its revision count,
/// and at most one more than the revision limit.
pub proof fn law_revision_count_bounded(store: &VersionStore, signal_id: u64)
    requires
        store.wf(),
    ensures
        store.latest_of(signal_id) == store.count_of(signal_id) + 1,
        store.count_of(signal_id) <= MAX_UPDATES_PER_SIGNAL,
        store.latest_of(signal_id) <= MAX_UPDATES_PER_SIGNAL + 1,
{
    if store.track_map().contains_key(signal_id) {
        let i = choose|i: int|
            0 <= i < store.tracks@.len() && (track_key())(#[trigger] store.tracks@[i]) == signal_id;
        lemma_keyed_at(store.tracks@, track_key(), i);
    }
}

/// A copy of `v`.
fn copy_version(v: &SignalVersion) -> (r: SignalVersion)
    ensures
        r@ == v@,
{
    SignalVersion {
        version: v.version,
        signal_id: v.signal_id,
        price: v.price,
        rationale: v.rationale.clone(),
        expiry: v.expiry,
        updated_at: v.updated_at,
        updated_by: v.updated_by,
    }
}

/// The archived versions of a signal, from version 1 up to its latest.
pub fn get_signal_history(store: &VersionStore, signal_id: u64) -> (r: Vec<SignalVersion>)
    requires
        store.wf(),
    ensures
        version_views(r@) == history_upto(
            store.version_map(),
            signal_id,
            store.latest_of(signal_id) as nat,
        ),
{
    let latest = get_latest_version(store, signal_id);
    proof {
        law_revision_count_bounded(store, signal_id);
    }
    let mut history: Vec<SignalVersion> = Vec::new();
    let mut v: u32 = 1;
    while v <= latest
        invariant
            store.wf(),
            latest == store.latest_of(signal_id),
            latest <= MAX_UPDATES_PER_SIGNAL + 1,
            1 <= v <= latest + 1,
            version_views(history@) == history_upto(store.version_map(), signal_id, (v - 1) as nat),
        decreases latest + 1 - v,
    {
        match find_version(&store.versions, signal_id, v) {
            Some(i) => {
                proof {
                    lemma_keyed_at(version_views(store.versions@), version_key(), i as int);
                }
                let c = copy_version(&store.versions[i]);
                history.push(c);
                proof {
                    assert(version_views(history@) =~= history_upto(store.version_map(), signal_id, (v - 1) as nat).push(c@));
                }
            },
            None => {
                proof {
                    lemma_keyed_absent(version_views(store.versions@), version_key(), (signal_id, v));
                }
            },
        }
        v = v + 1;
    }
    history
}

/// Records that `user` copied signal `signal_id` at version `version`, at
/// ledger time `now`; any earlier record of that copy is replaced.
pub fn record_copy(store: &mut VersionStore, user: &Address, signal_id: u64, version: u32, now: u64)
    requires
        old(store).wf(),
    ensures
        final(store).wf(),
        final(store).copy_map() == old(store).copy_map().insert(
            (*user, signal_id),
            CopyRecordView {
                user: *user,
                signal_id,
                version,
                copied_at: now,
                notified_of_updates: Seq::empty(),
            },
        ),
        final(store).tracks@ == old(store).tracks@,
        final(store).versions@ == old(store).versions@,
{
    let record = CopyRecord {
        user: *user,
        signal_id,
        version,
        copied_at: now,
        notified_of_updates: Vec::new(),
    };
    proof {
        assert(record@.notified_of_updates =~= Seq::<u32>::empty());
    }
    set_copy(store, record);
}

/// The record of `user`'s copy of signal `signal_id`, if any.
pub fn get_copy_record<'a>(store: &'a VersionStore, user: &Address, signal_id: u64) -> (r: Option<&'a CopyRecord>)
    requires
        store.wf(),
    ensures
        match r {
            Some(c) => store.copy_map().contains_key((*user, signal_id)) && c@ == store.copy_map()[(*user, signal_id)],
            None => !store.copy_map().contains_key((*user, signal_id)),
        },
{
    match find_copy(&store.copies, user, signal_id) {
        Some(i) => {
            proof {
                lemma_keyed_at(copy_views(store.copies@), copy_key(), i as int);
            }
            Some(&store.copies[i])
        },
        None => {
            proof {
                lemma_keyed_absent(copy_views(store.copies@), copy_key(), (*user, signal_id));
            }
            None
        },
    }
}

fn has_version(v: &Vec<u32>, x: u32) -> (r: bool)
    ensures
        r == v@.contains(x),
{
    let mut i: usize = 0;
    while i < v.len()
        invariant
            i <= v@.len(),
            forall|j: int| 0 <= j < i ==> v@[j] != x,
        decreases v@.len() - i,
    {
        if v[i] == x {
            return true;
        }
        i = i + 1;
    }
    false
}

pub open spec fn not_in(s: Seq<u32>) -> spec_fn(u32) -> bool {
    |v: u32| !s.contains(v)
}

/// Version numbers after `copied` up to `latest`, ascending.
pub open spec fn versions_after(copied: u32, latest: u32) -> Seq<u32> {
    let n = if latest > copied {
        latest - copied
    } else {
        0
    };
    Seq::new(n as nat, |i: int| (copied + 1 + i) as u32)
}

/// The versions of a signal newer than a user's copy that the user has not
/// been told of, ascending.
pub open spec fn pending_of(rec: CopyRecordView, latest: u32) -> Seq<u32> {
    versions_after(rec.version, latest).filter(not_in(rec.notified_of_updates))
}

/// Versions of signal `signal_id` newer than `user`'s copy that `user` has
/// not been told of; empty when the user holds no copy.
pub fn get_pending_updates(store: &VersionStore, user: &Address, signal_id: u64) -> (r: Vec<u32>)
    requires
        store.wf(),
        store.copy_map().contains_key((*user, signal_id)) ==> store.copy_map()[(*user, signal_id)].version < u32::MAX,
    ensures
        r@ == if store.copy_map().contains_key((*user, signal_id)) {
            pending_of(store.copy_map()[(*user, signal_id)], store.latest_of(signal_id))
        } else {
            Seq::empty()
        },
{
    let record = match get_copy_record(store, user, signal_id) {
        Some(c) => c,
        None => {
            return Vec::new();
        },
    };
    let latest = get_latest_version(store, signal_id);
    proof {
        law_revision_count_bounded(store, signal_id);
    }
    let ghost rec = record@;
    let ghost all = versions_after(rec.version, latest);
    let mut pending: Vec<u32> = Vec::new();
    if record.version >= latest {
        proof {
            assert(all =~= Seq::<u32>::empty());
            reveal_with_fuel(Seq::<_>::filter, 1);
        }
        return pending;
    }
    let mut v: u32 = record.version + 1;
    while v <= latest
        invariant
            rec == record@,
            all == versions_after(rec.version, latest),
            rec.version < latest,
            latest <= MAX_UPDATES_PER_SIGNAL + 1,
            rec.version + 1 <= v <= latest as int + 1,
            pending@ == all.take(v - rec.version - 1).filter(not_in(rec.notified_of_updates)),
        decreases latest + 1 - v,
    {
        let ghost k: int = v - rec.version - 1;
        let ghost k1: int = k + 1;
        proof {
            assert(all[k] == v);
            assert(all.take(k1).drop_last() =~= all.take(k));
            assert(all.take(k1).last() == v);
            reveal_with_fuel(Seq::<_>::filter, 1);
        }
        if !has_version(&record.notified_of_updates, v) {
            pending.push(v);
        }
        v = v + 1;
    }
    proof {
        assert(all.take(v - rec.version - 1) =~= all);
    }
    pending
}

/// Notes that `user` was told of version `version` of their copied signal;
/// nothing changes when the user holds no copy or was told already.
pub fn mark_notified(store: &mut VersionStore, user: &Address, signal_id: u64, version: u32)
    requires
        old(store).wf(),
    ensures
        final(store).wf(),
        final(store).copy_map() == if old(store).copy_map().contains_key((*user, signal_id))
            && !old(store).copy_map()[(*user, signal_id)].notified_of_updates.contains(version) {
            old(store).copy_map().insert(
                (*user, signal_id),
                CopyRecordView {
                    notified_of_updates: old(store).copy_map()[(
                        *user,
                        signal_id,
                    )].notified_of_updates.push(version),
                    ..old(store).copy_map()[(*user, signal_id)]
                },
            )
        } else {
            old(store).copy_map()
        },
        final(store).tracks@ == old(store).tracks@,
        final(store).versions@ == old(store).versions@,
{
    let ghost s0 = copy_views(store.copies@);
    match find_copy(&store.copies, user, signal_id) {
        Some(i) => {
            proof {
                lemma_keyed_at(s0, copy_key(), i as int);
            }
            if !has_version(&store.copies[i].notified_of_updates, version) {
                let mut rec = store.copies.remove(i);
                rec.notified_of_updates.push(version);
                let ghost rv = rec@;
                store.copies.insert(i, rec);
                proof {
                    assert(copy_views(store.copies@) =~= s0.update(i as int, rv));
                    lemma_keyed_update(s0, copy_key(), i as int, rv);
                }
            }
        },
        None => {
            proof {
                lemma_keyed_absent(s0, copy_key(), (*user, signal_id));
            }
        },
    }
}


/// Two revisions of the same signal that both succeed lie at least the
/// cooldown apart, and each adds one to the signal's revision count.
pub proof fn law_revisions_respect_cooldown(
    s0: VersionStore,
    s1: VersionStore,
    s2: VersionStore,
    signal_id: u64,
    updater1: Address,
    updater2: Address,
    price1: Option<i128>,
    price2: Option<i128>,
    rationale1: Option<Seq<char>>,
    rationale2: Option<Seq<char>>,
    expiry1: Option<u64>,
    expiry2: Option<u64>,
    signal1: SignalView,
    signal2: SignalView,
    now1: u64,
    now2: u64,
    r1: Result<u32, VersioningError>,
    r2: Result<u32, VersioningError>,
)
    requires
        s0.wf(),
        update_outcome(s0, s1, signal_id, updater1, price1, rationale1, expiry1, signal1, now1, r1),
        update_outcome(s1, s2, signal_id, updater2, price2, rationale2, expiry2, signal2, now2, r2),
        r1 is Ok,
        r2 is Ok,
    ensures
        now2 >= now1 + UPDATE_COOLDOWN_SECONDS,
        s2.count_of(signal_id) == s0.count_of(signal_id) + 2,
        s2.latest_of(signal_id) == s0.latest_of(signal_id) + 2,
{
    law_revision_count_bounded(&s0, signal_id);
}


/// Filtering keeps a strictly increasing sequence strictly increasing and
/// keeps exactly the elements that pass.
proof fn lemma_filter_increasing(s: Seq<u32>, keep: spec_fn(u32) -> bool)
    requires
        forall|i: int, j: int| 0 <= i < j < s.len() ==> s[i] < s[j],
    ensures
        forall|i: int, j: int| 0 <= i < j < s.filter(keep).len() ==> s.filter(keep)[i] < s.filter(keep)[j],
        forall|v: u32| #[trigger] s.filter(keep).contains(v) <==> s.contains(v) && keep(v),
    decreases s.len(),
{
    reveal_with_fuel(Seq::<_>::filter, 1);
    if s.len() > 0 {
        let t = s.drop_last();
        lemma_filter_increasing(t, keep);
        let f = t.filter(keep);
        assert forall|v: u32| #[trigger] s.contains(v) <==> t.contains(v) || v == s.last() by {
            if s.contains(v) {
                let k = choose|k: int| 0 <= k < s.len() && s[k] == v;
                if k < s.len() - 1 {
                    assert(t[k] == v);
                }
            }
            if t.contains(v) {
                let k = choose|k: int| 0 <= k < t.len() && t[k] == v;
                assert(s[k] == v);
            }
            if v == s.last() {
                assert(s[s.len() - 1] == v);
            }
        }
        if keep(s.last()) {
            assert forall|i: int| 0 <= i < f.len() implies f[i] < s.last() by {
                assert(f.contains(f[i]));
                let k = choose|k: int| 0 <= k < t.len() && t[k] == f[i];
                assert(s[k] < s[s.len() - 1]);
            }
            assert forall|v: u32| #[trigger] f.push(s.last()).contains(v) <==> f.contains(v) || v == s.last() by {
                if f.push(s.last()).contains(v) {
                    let k = choose|k: int| 0 <= k < f.push(s.last()).len() && f.push(s.last())[k] == v;
                    if k < f.len() {
                        assert(f[k] == v);
                    }
                }
                if f.contains(v) {
                    let k = choose|k: int| 0 <= k < f.len() && f[k] == v;
                    assert(f.push(s.last())[k] == v);
                }
                if v == s.last() {
                    assert(f.push(s.last())[f.len() as int] == v);
                }
            }
        }
    }
}

/// What a user who copied a signal is still owed: exactly the versions
/// after the one copied, up to the signal's latest, that the user has not
/// been told of, in increasing order.  Copying records the signal's latest
/// version with nothing told yet (`record_copy`), a revision raises the
/// latest version by one and leaves copies alone (`update_outcome`), and
/// telling the user of a version adds it to the told versions
/// (`mark_notified`).
pub proof fn law_pending_updates(rec: CopyRecordView, latest: u32)
    ensures
        forall|v: u32|
            #[trigger] pending_of(rec, latest).contains(v) <==> (rec.version < v <= latest
                && !rec.notified_of_updates.contains(v)),
        forall|i: int, j: int|
            0 <= i < j < pending_of(rec, latest).len() ==> pending_of(rec, latest)[i] < pending_of(rec, latest)[j],
{
    let s = versions_after(rec.version, latest);
    assert forall|v: u32| #[trigger] s.contains(v) <==> rec.version < v <= latest by {
        if rec.version < v <= latest {
            assert(s[v - rec.version - 1] == v);
        }
    }
    lemma_filter_increasing(s, not_in(rec.notified_of_updates));
}


/// A call on the versioning store together with what it returned: a copy
/// by `user` of the signal's latest version, a revision, or telling `user`
/// of a version.
pub enum VersionCall {
    Copy { user: Address, signal_id: u64, now: u64 },
    Revise {
        signal_id: u64,
        updater: Address,
        new_price: Option<i128>,
        new_rationale: Option<Seq<char>>,
        new_expiry: Option<u64>,
        signal: SignalView,
        now: u64,
        result: Result<u32, VersioningError>,
    },
    Notify { user: Address, signal_id: u64, version: u32 },
}

/// `s1` is the store after `call` ran on `s0`, as the contracts of
/// `record_copy` (given the signal's latest version), `update_signal` and
/// `mark_notified` say.
pub open spec fn version_call_done(s0: VersionStore, s1: VersionStore, call: VersionCall) -> bool {
    match call {
        VersionCall::Copy { user, signal_id, now } => {
            &&& s1.copy_map() == s0.copy_map().insert(
                (user, signal_id),
                CopyRecordView {
                    user,
                    signal_id,
                    version: s0.latest_of(signal_id),
                    copied_at: now,
                    notified_of_updates: Seq::empty(),
                },
            )
            &&& s1.tracks@ == s0.tracks@
            &&& s1.versions@ == s0.versions@
        },
        VersionCall::Revise { signal_id, updater, new_price, new_rationale, new_expiry, signal, now, result } => {
            update_outcome(s0, s1, signal_id, updater, new_price, new_rationale, new_expiry, signal, now, result)
        },
        VersionCall::Notify { user, signal_id, version } => {
            &&& s1.copy_map() == if s0.copy_map().contains_key((user, signal_id)) && !s0.copy_map()[(
                user,
                signal_id,
            )].notified_of_updates.contains(version) {
                s0.copy_map().insert(
                    (user, signal_id),
                    CopyRecordView {
                        notified_of_updates: s0.copy_map()[(user, signal_id)].notified_of_updates.push(version),
                        ..s0.copy_map()[(user, signal_id)]
                    },
                )
            } else {
                s0.copy_map()
            }
            &&& s1.tracks@ == s0.tracks@
            &&& s1.versions@ == s0.versions@
        },
    }
}

/// Some call of `calls` told `user` of version `v` of the signal.
pub open spec fn told_of(calls: Seq<VersionCall>, user: Address, signal_id: u64, v: u32) -> bool {
    exists|j: int|
        0 <= j < calls.len() && #[trigger] calls[j] == (VersionCall::Notify { user, signal_id, version: v })
}

/// `call` is a copy of the signal by `user`.
pub open spec fn copies(call: VersionCall, user: Address, signal_id: u64) -> bool {
    call matches VersionCall::Copy { user: u, signal_id: s, .. } && u == user && s == signal_id
}

/// The copy record of `user` after the first `n` calls, all after the copy.
proof fn lemma_copy_record_kept(
    states: Seq<VersionStore>,
    calls: Seq<VersionCall>,
    user: Address,
    signal_id: u64,
    n: int,
)
    requires
        states.len() == calls.len() + 1,
        1 <= n <= calls.len(),
        copies(calls[0], user, signal_id),
        forall|j: int| #![trigger calls[j]] 1 <= j < calls.len() ==> !copies(calls[j], user, signal_id),
        forall|i: int| #![trigger calls[i]] 0 <= i < calls.len() ==> version_call_done(states[i], states[i + 1], calls[i]),
    ensures
        states[n].copy_map().contains_key((user, signal_id)),
        states[n].copy_map()[(user, signal_id)].version == states[0].latest_of(signal_id),
        forall|v: u32|
            #[trigger] states[n].copy_map()[(user, signal_id)].notified_of_updates.contains(v) <==> exists|j: int|
                1 <= j < n && #[trigger] calls[j] == (VersionCall::Notify { user, signal_id, version: v }),
    decreases n,
{
    let key = (user, signal_id);
    if n == 1 {
        assert(version_call_done(states[0], states[1], calls[0]));
    } else {
        lemma_copy_record_kept(states, calls, user, signal_id, n - 1);
        let m = n - 1;
        assert(version_call_done(states[m], states[n], calls[m]));
        assert(!copies(calls[m], user, signal_id));
        let r0 = states[m].copy_map()[key];
        match calls[m] {
            VersionCall::Copy { user: u, signal_id: sid, now } => {
                assert((u, sid) != key);
                assert(states[n].copy_map()[key] == r0);
                assert forall|v: u32| #[trigger] states[n].copy_map()[key].notified_of_updates.contains(v) <==> exists|j: int|
                    1 <= j < n && #[trigger] calls[j] == (VersionCall::Notify { user, signal_id, version: v }) by {
                    if exists|j: int| 1 <= j < n && #[trigger] calls[j] == (VersionCall::Notify { user, signal_id, version: v }) {
                        let j = choose|j: int| 1 <= j < n && #[trigger] calls[j] == (VersionCall::Notify { user, signal_id, version: v });
                        assert(j != m);
                    }
                }
            },
            VersionCall::Revise { .. } => {
                assert(states[n].copies@ == states[m].copies@ || states[n] == states[m]);
                assert(states[n].copy_map() == states[m].copy_map());
                assert forall|v: u32| #[trigger] states[n].copy_map()[key].notified_of_updates.contains(v) <==> exists|j: int|
                    1 <= j < n && #[trigger] calls[j] == (VersionCall::Notify { user, signal_id, version: v }) by {
                    if exists|j: int| 1 <= j < n && #[trigger] calls[j] == (VersionCall::Notify { user, signal_id, version: v }) {
                        let j = choose|j: int| 1 <= j < n && #[trigger] calls[j] == (VersionCall::Notify { user, signal_id, version: v });
                        assert(j != m);
                    }
                }
            },
            VersionCall::Notify { user: u, signal_id: sid, version: w } => {
                assert forall|v: u32| #[trigger] states[n].copy_map()[key].notified_of_updates.contains(v) <==> exists|j: int|
                    1 <= j < n && #[trigger] calls[j] == (VersionCall::Notify { user, signal_id, version: v }) by {
                    if (u, sid) == key {
                        if states[n].copy_map()[key].notified_of_updates.contains(v) && v != w {
                            if !r0.notified_of_updates.contains(w) {
                                let k = choose|k: int| 0 <= k < r0.notified_of_updates.push(w).len()
                                    && r0.notified_of_updates.push(w)[k] == v;
                                assert(r0.notified_of_updates[k] == v);
                            }
                        }
                        if v == w {
                            assert(calls[m] == (VersionCall::Notify { user, signal_id, version: v }));
                            if !r0.notified_of_updates.contains(w) {
                                assert(r0.notified_of_updates.push(w)[r0.notified_of_updates.len() as int] == w);
                            }
                        }
                        if r0.notified_of_updates.contains(v) && !r0.notified_of_updates.contains(w) {
                            let k = choose|k: int| 0 <= k < r0.notified_of_updates.len() && r0.notified_of_updates[k] == v;
                            assert(r0.notified_of_updates.push(w)[k] == v);
                        }
                        if exists|j: int| 1 <= j < n && #[trigger] calls[j] == (VersionCall::Notify { user, signal_id, version: v }) {
                            let j = choose|j: int| 1 <= j < n && #[trigger] calls[j] == (VersionCall::Notify { user, signal_id, version: v });
                            if j == m {
                                assert(v == w);
                            }
                        }
                    } else {
                        assert(states[n].copy_map()[key] == r0);
                        if exists|j: int| 1 <= j < n && #[trigger] calls[j] == (VersionCall::Notify { user, signal_id, version: v }) {
                            let j = choose|j: int| 1 <= j < n && #[trigger] calls[j] == (VersionCall::Notify { user, signal_id, version: v });
                            assert(j != m);
                        }
                    }
                }
            },
        }
    }
}

/// After `user` copies a signal at its latest version c, and any run of
/// revisions, copies by others and notifications follows (with no new copy
/// by `user`), the versions still owed to `user` are those after c up to
/// the signal's latest version L that no call told `user` of, in increasing
/// order (see `law_pending_updates`); `get_pending_updates` returns exactly
/// these.
pub proof fn law_pending_updates_over_calls(
    states: Seq<VersionStore>,
    calls: Seq<VersionCall>,
    user: Address,
    signal_id: u64,
)
    requires
        states.len() == calls.len() + 1,
        calls.len() >= 1,
        copies(calls[0], user, signal_id),
        forall|j: int| #![trigger calls[j]] 1 <= j < calls.len() ==> !copies(calls[j], user, signal_id),
        forall|i: int| #![trigger calls[i]] 0 <= i < calls.len() ==> version_call_done(states[i], states[i + 1], calls[i]),
    ensures
        states.last().copy_map().contains_key((user, signal_id)),
        states.last().copy_map()[(user, signal_id)].version == states[0].latest_of(signal_id),
        pending_of(states.last().copy_map()[(user, signal_id)], states.last().latest_of(signal_id)) == versions_after(
            states[0].latest_of(signal_id),
            states.last().latest_of(signal_id),
        ).filter(|v: u32| !told_of(calls, user, signal_id, v)),
{
    let n = calls.len() as int;
    lemma_copy_record_kept(states, calls, user, signal_id, n);
    let rec = states[n].copy_map()[(user, signal_id)];
    assert(states.last() == states[n]);
    assert forall|v: u32| rec.notified_of_updates.contains(v) <==> told_of(calls, user, signal_id, v) by {
        if told_of(calls, user, signal_id, v) {
            let j = choose|j: int| 0 <= j < calls.len() && #[trigger] calls[j] == (VersionCall::Notify { user, signal_id, version: v });
            assert(j != 0);
        }
        if rec.notified_of_updates.contains(v) {
            let j = choose|j: int| 1 <= j < n && #[trigger] calls[j] == (VersionCall::Notify { user, signal_id, version: v });
            assert(0 <= j < calls.len() && calls[j] == (VersionCall::Notify { user, signal_id, version: v }));
        }
    }
    assert(not_in(rec.notified_of_updates) =~= (|v: u32| !told_of(calls, user, signal_id, v)));
}


/// An accepted revision applies exactly the changes asked for: a given new
/// price, rationale or expiry replaces the old one, an absent one leaves it
/// as it was, and nothing else about the signal changes.  A refused
/// revision before the price check leaves the signal as it was.
pub proof fn law_accepted_revision_applies_changes(
    s0: VersionStore,
    s1: VersionStore,
    signal_id: u64,
    updater: Address,
    new_price: Option<i128>,
    new_rationale: Option<Seq<char>>,
    new_expiry: Option<u64>,
    signal: SignalView,
    now: u64,
    r: Result<u32, VersioningError>,
)
    requires
        update_outcome(s0, s1, signal_id, updater, new_price, new_rationale, new_expiry, signal, now, r),
    ensures
        ({
            let after = signal_after_update(s0, signal_id, updater, new_price, new_rationale, new_expiry, signal, now);
            &&& r is Ok ==> {
                &&& (new_price matches Some(p) ==> after.price == p && p > 0)
                &&& (new_price is None ==> after.price == signal.price)
                &&& (new_rationale matches Some(t) ==> after.rationale == t)
                &&& (new_rationale is None ==> after.rationale == signal.rationale)
                &&& (new_expiry matches Some(e) ==> after.expiry == e && e > now)
                &&& (new_expiry is None ==> after.expiry == signal.expiry)
                &&& after.id == signal.id && after.provider == signal.provider && after.status == signal.status
                &&& after.asset_pair == signal.asset_pair && after.action == signal.action
                &&& after.tags == signal.tags && after.timestamp == signal.timestamp
            }
            &&& update_refusal(s0, signal_id, updater, signal, now) is Some ==> r is Err && after == signal
        }),
{
}

} // verus!
