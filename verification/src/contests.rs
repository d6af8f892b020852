//! Trading contests: providers' signals are entered into every contest
//! running at publication time, scored by the contest's metric, and the
//! three best-scoring qualified providers share the prize pool 50/30/20.

use vstd::prelude::*;
use crate::errors::ContestError;
use crate::keyed::{has_key, keyed, keys_distinct, lemma_keyed_absent, lemma_keyed_at, lemma_keyed_push, lemma_keyed_update, lemma_keyed_value_key};
use crate::ranking::{distinct_who, kept, lemma_ranking_exists, lemma_ranking_unique, lemma_insert_ranked, lemma_ranking_is, lemma_ranks_before_order, ranking, ranks, ranks_before, strictly_ranked};
use crate::types::{Address, Signal, SignalView};

verus! {

/// What a contest ranks its entrants by.
#[derive(Copy, Clone, Debug, PartialEq, Eq, Structural)]
pub enum ContestMetric {
    HighestROI,
    BestSuccessRate,
    MostVolume,
    MostFollowers,
}

/// Lifecycle state of a contest.
#[derive(Copy, Clone, Debug, PartialEq, Eq, Structural)]
pub enum ContestStatus {
    Active,
    Finalized,
    Cancelled,
}

/// A provider's standing in one contest.
#[derive(Debug)]
pub struct ContestEntry {
    pub provider: Address,
    pub signals_submitted: Vec<u64>,
    pub total_roi: i128,
    pub success_rate: u32,
    pub total_volume: i128,
    pub score: i128,
}

/// The mathematical value of a `ContestEntry`.
pub struct EntryView {
    pub provider: Address,
    pub signals_submitted: Seq<u64>,
    pub total_roi: i128,
    pub success_rate: u32,
    pub total_volume: i128,
    pub score: i128,
}

impl View for ContestEntry {
    type V = EntryView;

    open spec fn view(&self) -> EntryView {
        EntryView {
            provider: self.provider,
            signals_submitted: self.signals_submitted@,
            total_roi: self.total_roi,
            success_rate: self.success_rate,
            total_volume: self.total_volume,
            score: self.score,
        }
    }
}

/// A trading contest and its entrants.
#[derive(Debug)]
pub struct Contest {
    pub id: u64,
    pub name: String,
    pub start_time: u64,
    pub end_time: u64,
    pub metric: ContestMetric,
    pub min_signals: u32,
    pub entries: Vec<ContestEntry>,
    pub winners: Vec<Address>,
    pub prize_pool: i128,
    pub status: ContestStatus,
}

/// The mathematical value of a `Contest`: its entries form a map from
/// provider to entry.
pub struct ContestView {
    pub id: u64,
    pub name: Seq<char>,
    pub start_time: u64,
    pub end_time: u64,
    pub metric: ContestMetric,
    pub min_signals: u32,
    pub entries: Map<Address, EntryView>,
    pub winners: Seq<Address>,
    pub prize_pool: i128,
    pub status: ContestStatus,
}

pub open spec fn entry_views(v: Seq<ContestEntry>) -> Seq<EntryView> {
    Seq::new(v.len(), |i: int| v[i]@)
}

pub open spec fn entry_who() -> spec_fn(EntryView) -> Address {
    |e: EntryView| e.provider
}

pub open spec fn entry_score() -> spec_fn(EntryView) -> int {
    |e: EntryView| e.score as int
}

impl View for Contest {
    type V = ContestView;

    open spec fn view(&self) -> ContestView {
        ContestView {
            id: self.id,
            name: self.name@,
            start_time: self.start_time,
            end_time: self.end_time,
            metric: self.metric,
            min_signals: self.min_signals,
            entries: keyed(entry_views(self.entries@), entry_who()),
            winners: self.winners@,
            prize_pool: self.prize_pool,
            status: self.status,
        }
    }
}

/// Storage keys of the contest module.
#[derive(Copy, Clone, Debug, PartialEq, Eq, Structural)]
pub enum ContestStorageKey {
    ContestCounter,
    Contests,
    ActiveContests,
}

/// The prize allotted to one provider in one contest.
#[derive(Copy, Clone, Debug, PartialEq, Eq, Structural)]
pub struct PrizeAward {
    pub contest_id: u64,
    pub provider: Address,
    pub amount: i128,
}

/// All contest state: the id counter, the contests by id, the ids of the
/// contests still running, and the prizes allotted so far.
#[derive(Debug)]
pub struct ContestStore {
    pub counter: u64,
    pub contests: Vec<Contest>,
    pub active: Vec<u64>,
    pub prizes: Vec<PrizeAward>,
}

pub open spec fn contest_views(v: Seq<Contest>) -> Seq<ContestView> {
    Seq::new(v.len(), |i: int| v[i]@)
}

pub open spec fn contest_key() -> spec_fn(ContestView) -> u64 {
    |c: ContestView| c.id
}

pub open spec fn prize_key() -> spec_fn(PrizeAward) -> (u64, Address) {
    |a: PrizeAward| (a.contest_id, a.provider)
}

/// The share of the pool that the winner at `rank` (0, 1 or 2) receives.
pub open spec fn prize_percent(rank: int) -> int {
    if rank == 0 {
        50
    } else if rank == 1 {
        30
    } else {
        20
    }
}

pub open spec fn prize_share(pool: i128, rank: int) -> int {
    (pool * prize_percent(rank)) / 100
}

/// A contest's score of an entry under a metric.
pub open spec fn score_for(e: EntryView, metric: ContestMetric) -> i128 {
    match metric {
        ContestMetric::HighestROI => e.total_roi,
        ContestMetric::BestSuccessRate => e.success_rate as i128,
        ContestMetric::MostVolume => e.total_volume,
        ContestMetric::MostFollowers => 0,
    }
}

/// Entries with at least `min` submitted signals.
pub open spec fn qualified(entries: Map<Address, EntryView>, min: u32) -> Set<EntryView> {
    entries.values().filter(|e: EntryView| e.signals_submitted.len() >= min)
}

/// The winners of a finalized contest: the providers of its three best
/// qualified entries, best first.
pub open spec fn contest_winners(c: ContestView) -> Seq<Address> {
    let r = ranking(qualified(c.entries, c.min_signals), entry_score(), entry_who());
    let k = if r.len() < 3 {
        r.len() as int
    } else {
        3
    };
    Seq::new(k as nat, |i: int| r[i].provider)
}

/// Prize table after allotting the shares of `winners` in contest `id`.
pub open spec fn award_prizes(
    m: Map<(u64, Address), i128>,
    id: u64,
    winners: Seq<Address>,
    pool: i128,
) -> Map<(u64, Address), i128>
    decreases winners.len(),
{
    if winners.len() == 0 {
        m
    } else {
        award_prizes(m, id, winners.drop_last(), pool).insert(
            (id, winners.last()),
            prize_share(pool, winners.len() - 1) as i128,
        )
    }
}

/// `c` takes entries at ledger time `now`.
pub open spec fn accepts_entries(c: ContestView, now: u64) -> bool {
    c.status == ContestStatus::Active && c.start_time <= now && now <= c.end_time
}

/// The standing of a provider who has not entered yet.
pub open spec fn fresh_entry(p: Address) -> EntryView {
    EntryView {
        provider: p,
        signals_submitted: Seq::empty(),
        total_roi: 0,
        success_rate: 0,
        total_volume: 0,
        score: 0,
    }
}

/// The provider's entry in `c`, or a fresh one.
pub open spec fn current_entry(c: ContestView, p: Address) -> EntryView {
    if c.entries.contains_key(p) {
        c.entries[p]
    } else {
        fresh_entry(p)
    }
}

/// An entry after one more signal is counted in it: its totals grow by the
/// signal's, its success rate is the signal's successful executions per
/// submitted signal in percent, and it is rescored.
pub open spec fn entry_with_signal(
    e: EntryView,
    signal_id: u64,
    roi: i128,
    volume: i128,
    successful: u32,
    metric: ContestMetric,
) -> EntryView {
    let subs = e.signals_submitted.push(signal_id);
    let counted = EntryView {
        provider: e.provider,
        signals_submitted: subs,
        total_roi: (e.total_roi + roi) as i128,
        success_rate: ((successful * 100) / (subs.len() as int)) as u32,
        total_volume: (e.total_volume + volume) as i128,
        score: e.score,
    };
    EntryView { score: score_for(counted, metric), ..counted }
}

/// Counting the signal in `c` stays within the integer types.
pub open spec fn can_count(c: ContestView, signal: SignalView) -> bool {
    let e = current_entry(c, signal.provider);
    &&& e.signals_submitted.len() + 1 <= u32::MAX
    &&& i128::MIN <= e.total_roi + signal.total_roi <= i128::MAX
    &&& i128::MIN <= e.total_volume + signal.total_volume <= i128::MAX
    &&& signal.successful_executions * 100 <= u32::MAX
}

/// `c` after the signal is counted in its provider's entry.
pub open spec fn contest_with_signal(c: ContestView, signal: SignalView) -> ContestView {
    ContestView {
        entries: c.entries.insert(
            signal.provider,
            entry_with_signal(
                current_entry(c, signal.provider),
                signal.id,
                signal.total_roi,
                signal.total_volume,
                signal.successful_executions,
                c.metric,
            ),
        ),
        ..c
    }
}

/// The contests after a signal published at `now` is entered into every
/// listed contest that takes entries.
pub open spec fn contests_after_signal(
    m: Map<u64, ContestView>,
    active: Seq<u64>,
    signal: SignalView,
    now: u64,
) -> Map<u64, ContestView> {
    Map::new(
        |id: u64| m.contains_key(id),
        |id: u64|
            if active.contains(id) && accepts_entries(m[id], now) {
                contest_with_signal(m[id], signal)
            } else {
                m[id]
            },
    )
}

/// Entries of `s` with at least `min` submitted signals.
pub open spec fn qualified_in(s: Seq<EntryView>, min: u32) -> Set<EntryView> {
    Set::new(|x: EntryView| s.contains(x) && x.signals_submitted.len() >= min)
}

/// The active list once `id` is taken off it.
pub open spec fn without_id(active: Seq<u64>, id: u64) -> Seq<u64> {
    active.filter(other_than(id))
}

pub open spec fn other_than(id: u64) -> spec_fn(u64) -> bool {
    |x: u64| x != id
}

/// `c` once finalized: its winners recorded and its status `Finalized`.
pub open spec fn finalized(c: ContestView) -> ContestView {
    ContestView { winners: contest_winners(c), status: ContestStatus::Finalized, ..c }
}

/// Finalizing contest `id` at `now` gets as far as allotting prizes.
pub open spec fn finalize_proceeds(m: Map<u64, ContestView>, id: u64, now: u64) -> bool {
    &&& m.contains_key(id)
    &&& now >= m[id].end_time
    &&& m[id].status == ContestStatus::Active
}

/// Prize table after finalizing a contest with these winners and this pool.
pub open spec fn prizes_after_finalize(
    m: Map<(u64, Address), i128>,
    id: u64,
    winners: Seq<Address>,
    pool: i128,
) -> Map<(u64, Address), i128> {
    if pool == 0 || winners.len() == 0 {
        m
    } else {
        award_prizes(m, id, winners, pool)
    }
}

/// What opening a contest does to the store and returns: a bad time range or
/// a negative pool is refused with nothing changed; otherwise the contest
/// gets the next id, starts active with no entries, and is listed active.
pub open spec fn contest_created(
    s0: ContestStore,
    s1: ContestStore,
    name: Seq<char>,
    start_time: u64,
    end_time: u64,
    metric: ContestMetric,
    min_signals: u32,
    prize_pool: i128,
    now: u64,
    r: Result<u64, ContestError>,
) -> bool {
    &&& start_time >= end_time || end_time <= now ==> r == Err::<u64, ContestError>(
        ContestError::InvalidTimeRange,
    )
    &&& start_time < end_time && end_time > now && prize_pool < 0 ==> r == Err::<u64, ContestError>(
        ContestError::InvalidPrizePool,
    )
    &&& start_time < end_time && end_time > now && prize_pool >= 0 ==> r is Ok
    &&& r is Err ==> s1 == s0
    &&& r is Ok ==> {
        let id = r->Ok_0;
        &&& start_time < end_time && end_time > now && prize_pool >= 0
        &&& id == s0.counter + 1
        &&& s1.counter == id
        &&& s1.contest_map() == s0.contest_map().insert(
            id,
            ContestView {
                id,
                name,
                start_time,
                end_time,
                metric,
                min_signals,
                entries: Map::empty(),
                winners: Seq::empty(),
                prize_pool,
                status: ContestStatus::Active,
            },
        )
        &&& s1.active@ == s0.active@.push(id)
        &&& s1.prizes@ == s0.prizes@
    }
}

/// What finalizing contest `id` at `now` does to the store and returns: an
/// unknown contest, one not yet ended, or one already closed is refused with
/// nothing changed; otherwise the winners are recorded, prizes allotted, the
/// contest marked finalized and taken off the active list.
pub open spec fn contest_closed(
    s0: ContestStore,
    s1: ContestStore,
    id: u64,
    now: u64,
    r: Result<Vec<Address>, ContestError>,
) -> bool {
    let m = s0.contest_map();
    &&& !m.contains_key(id) ==> r == Err::<Vec<Address>, ContestError>(ContestError::ContestNotFound)
    &&& m.contains_key(id) && now < m[id].end_time ==> r == Err::<Vec<Address>, ContestError>(
        ContestError::ContestNotEnded,
    )
    &&& m.contains_key(id) && now >= m[id].end_time && m[id].status != ContestStatus::Active ==> r
        == Err::<Vec<Address>, ContestError>(ContestError::AlreadyFinalized)
    &&& finalize_proceeds(m, id, now) ==> r is Ok
    &&& r is Err ==> s1 == s0
    &&& r is Ok ==> {
        let c = m[id];
        &&& finalize_proceeds(m, id, now)
        &&& r->Ok_0@ == contest_winners(c)
        &&& s1.contest_map() == m.insert(id, finalized(c))
        &&& s1.active@ == without_id(s0.active@, id)
        &&& s1.prize_map() == prizes_after_finalize(
            s0.prize_map(),
            id,
            contest_winners(c),
            c.prize_pool,
        )
        &&& s1.counter == s0.counter
    }
}

impl ContestStore {
    pub open spec fn contest_seq(&self) -> Seq<ContestView> {
        contest_views(self.contests@)
    }

    /// The contests by id.
    pub open spec fn contest_map(&self) -> Map<u64, ContestView> {
        keyed(self.contest_seq(), contest_key())
    }

    /// The prize allotted to each (contest, provider) pair.
    pub open spec fn prize_map(&self) -> Map<(u64, Address), i128> {
        keyed(self.prizes@, prize_key()).map_values(|a: PrizeAward| a.amount)
    }

    /// The active list names exactly the stored contests that are active.
    pub open spec fn lists_active(&self) -> bool {
        forall|id: u64|
            #![trigger self.active@.contains(id)]
            #![trigger self.contest_map().contains_key(id)]
            self.active@.contains(id) <==> (self.contest_map().contains_key(id) && self.contest_map()[id].status
                == ContestStatus::Active)
    }

    /// Prizes are recorded only for stored contests that are finalized.
    pub open spec fn prizes_settled(&self) -> bool {
        forall|k: (u64, Address)|
            #[trigger] self.prize_map().contains_key(k) ==> self.contest_map().contains_key(k.0)
                && self.contest_map()[k.0].status == ContestStatus::Finalized
    }

    /// The store's invariant: ids and keys are unique, every id stems from the
    /// counter, prize pools are not negative, prizes belong to finalized
    /// contests, and the active list names exactly the active contests, each
    /// once, oldest first.
    pub open spec fn wf(&self) -> bool {
        &&& keys_distinct(self.contest_seq(), contest_key())
        &&& forall|i: int|
            0 <= i < self.contests@.len() ==> distinct_who(
                entry_views(#[trigger] self.contests@[i].entries@),
                entry_who(),
            )
        &&& forall|i: int|
            0 <= i < self.contests@.len() ==> (#[trigger] self.contests@[i]).id <= self.counter
        &&& forall|i: int| 0 <= i < self.contests@.len() ==> (#[trigger] self.contests@[i]).prize_pool >= 0
        &&& self.active@.no_duplicates()
        &&& forall|i: int| 0 <= i < self.active@.len() ==> #[trigger] self.active@[i] <= self.counter
        &&& keys_distinct(self.prizes@, prize_key())
        &&& self.lists_active()
        &&& self.prizes_settled()
        &&& forall|i: int, j: int|
            0 <= i < j < self.active@.len() ==> #[trigger] self.active@[i] < #[trigger] self.active@[j]
    }

    /// A store with no contests.
    pub fn new() -> (s: Self)
        ensures
            s.wf(),
            s.counter == 0,
            s.contest_map() == Map::<u64, ContestView>::empty(),
            s.active@ == Seq::<u64>::empty(),
            s.prize_map() == Map::<(u64, Address), i128>::empty(),
    {
        let s = ContestStore { counter: 0, contests: Vec::new(), active: Vec::new(), prizes: Vec::new() };
        assert(s.contest_map() =~= Map::<u64, ContestView>::empty());
        assert(s.prize_map() =~= Map::<(u64, Address), i128>::empty());
        s
    }
}

/// Position of the contest with id `id`, if any.
fn find_contest(contests: &Vec<Contest>, id: u64) -> (r: Option<usize>)
    ensures
        match r {
            Some(i) => i < contests@.len() && contests@[i as int].id == id,
            None => forall|j: int| 0 <= j < contests@.len() ==> (#[trigger] contests@[j]).id != id,
        },
{
    let mut i: usize = 0;
    while i < contests.len()
        invariant
            i <= contests@.len(),
            forall|j: int| 0 <= j < i ==> (#[trigger] contests@[j]).id != id,
        decreases contests@.len() - i,
    {
        if contests[i].id == id {
            return Some(i);
        }
        i = i + 1;
    }
    None
}

proof fn lemma_contest_at(s: &ContestStore, i: int)
    requires
        s.wf(),
        0 <= i < s.contests@.len(),
    ensures
        s.contest_map().contains_key(s.contests@[i].id),
        s.contest_map()[s.contests@[i].id] == s.contests@[i]@,
{
    assert(s.contest_seq()[i] == s.contests@[i]@);
    lemma_keyed_at(s.contest_seq(), contest_key(), i);
}

proof fn lemma_contest_absent(s: &ContestStore, id: u64)
    requires
        forall|j: int| 0 <= j < s.contests@.len() ==> (#[trigger] s.contests@[j]).id != id,
    ensures
        !s.contest_map().contains_key(id),
{
    assert forall|j: int| 0 <= j < s.contest_seq().len() implies (contest_key())(
        #[trigger] s.contest_seq()[j],
    ) != id by {
        assert(s.contest_seq()[j] == s.contests@[j]@);
    }
    lemma_keyed_absent(s.contest_seq(), contest_key(), id);
}

/// Score of `entry` under `metric`.
pub fn calculate_contest_score(entry: &ContestEntry, metric: &ContestMetric) -> (r: i128)
    ensures
        r == score_for(entry@, *metric),
{
    match metric {
        ContestMetric::HighestROI => entry.total_roi,
        ContestMetric::BestSuccessRate => entry.success_rate as i128,
        ContestMetric::MostVolume => entry.total_volume,
        ContestMetric::MostFollowers => 0,
    }
}

/// Position of `provider`'s entry, if any.
fn find_entry(entries: &Vec<ContestEntry>, provider: &Address) -> (r: Option<usize>)
    ensures
        match r {
            Some(i) => i < entries@.len() && entries@[i as int].provider == *provider,
            None => forall|j: int|
                0 <= j < entries@.len() ==> (#[trigger] entries@[j]).provider != *provider,
        },
{
    let mut i: usize = 0;
    while i < entries.len()
        invariant
            i <= entries@.len(),
            forall|j: int| 0 <= j < i ==> (#[trigger] entries@[j]).provider != *provider,
        decreases entries@.len() - i,
    {
        if entries[i].provider.same(provider) {
            return Some(i);
        }
        i = i + 1;
    }
    None
}

/// Counts `signal` in `entry`, which belongs to the signal's provider.
fn count_signal(entry: &mut ContestEntry, signal: &Signal, metric: &ContestMetric)
    requires
        old(entry).signals_submitted@.len() + 1 <= u32::MAX,
        i128::MIN <= old(entry).total_roi + signal.total_roi <= i128::MAX,
        i128::MIN <= old(entry).total_volume + signal.total_volume <= i128::MAX,
        signal.successful_executions * 100 <= u32::MAX,
    ensures
        final(entry)@ == entry_with_signal(
            old(entry)@,
            signal.id,
            signal.total_roi,
            signal.total_volume,
            signal.successful_executions,
            *metric,
        ),
{
    entry.signals_submitted.push(signal.id);
    entry.total_roi = entry.total_roi + signal.total_roi;
    entry.total_volume = entry.total_volume + signal.total_volume;
    let total_signals = entry.signals_submitted.len() as u32;
    let successful = signal.successful_executions;
    entry.success_rate = if total_signals > 0 {
        (successful * 100) / total_signals
    } else {
        0
    };
    entry.score = calculate_contest_score(entry, metric);
}

/// Counts `signal` in its provider's entry of `contest`.
fn enter_signal(contest: &mut Contest, signal: &Signal)
    requires
        distinct_who(entry_views(old(contest).entries@), entry_who()),
        can_count(old(contest)@, signal@),
    ensures
        distinct_who(entry_views(final(contest).entries@), entry_who()),
        final(contest)@ == contest_with_signal(old(contest)@, signal@),
        final(contest).id == old(contest).id,
        final(contest).prize_pool == old(contest).prize_pool,
{
    let ghost views = entry_views(contest.entries@);
    let ghost c0 = contest@;
    proof {
        assert(keys_distinct(views, entry_who()));
    }
    match find_entry(&contest.entries, &signal.provider) {
        Some(j) => {
            proof {
                assert(views[j as int] == contest.entries@[j as int]@);
                lemma_keyed_at(views, entry_who(), j as int);
            }
            let mut e = contest.entries.remove(j);
            count_signal(&mut e, signal, &contest.metric);
            contest.entries.insert(j, e);
            proof {
                assert(entry_views(contest.entries@) =~= views.update(j as int, e@));
                lemma_keyed_update(views, entry_who(), j as int, e@);
            }
        },
        None => {
            proof {
                assert forall|k: int| 0 <= k < views.len() implies (entry_who())(
                    #[trigger] views[k],
                ) != signal.provider by {
                    assert(views[k] == contest.entries@[k]@);
                }
                lemma_keyed_absent(views, entry_who(), signal.provider);
            }
            let mut e = ContestEntry {
                provider: signal.provider,
                signals_submitted: Vec::new(),
                total_roi: 0,
                success_rate: 0,
                total_volume: 0,
                score: 0,
            };
            proof {
                assert(e@.signals_submitted =~= Seq::<u64>::empty());
                assert(e@ == fresh_entry(signal.provider));
            }
            count_signal(&mut e, signal, &contest.metric);
            contest.entries.push(e);
            proof {
                assert(entry_views(contest.entries@) =~= views.push(e@));
                lemma_keyed_push(views, entry_who(), e@);
            }
        },
    }
    proof {
        assert(contest@.entries =~= contest_with_signal(c0, signal@).entries);
    }
}

/// Enters a signal published at ledger time `now` into every active contest
/// whose window contains `now`.
pub fn auto_enter_signal(store: &mut ContestStore, signal: &Signal, now: u64) -> (r: Result<
    (),
    ContestError,
>)
    requires
        old(store).wf(),
        forall|id: u64|
            #![trigger old(store).contest_map()[id]]
            old(store).contest_map().contains_key(id) && old(store).active@.contains(id)
                && accepts_entries(old(store).contest_map()[id], now) ==> can_count(
                old(store).contest_map()[id],
                signal@,
            ),
    ensures
        r is Ok,
        final(store).wf(),
        final(store).contest_map() == contests_after_signal(
            old(store).contest_map(),
            old(store).active@,
            signal@,
            now,
        ),
        final(store).counter == old(store).counter,
        final(store).active@ == old(store).active@,
        final(store).prizes@ == old(store).prizes@,
{
    let ghost m0 = store.contest_map();
    let ghost act = store.active@;
    let mut i: usize = 0;
    while i < store.active.len()
        invariant
            store.wf(),
            store.active@ == act,
            act.no_duplicates(),
            i <= act.len(),
            store.counter == old(store).counter,
            store.prizes@ == old(store).prizes@,
            m0 == old(store).contest_map(),
            act == old(store).active@,
            forall|id: u64|
                #![trigger m0[id]]
                m0.contains_key(id) && act.contains(id) && accepts_entries(m0[id], now)
                    ==> can_count(m0[id], signal@),
            store.contest_map().dom() == m0.dom(),
            forall|id: u64|
                #![trigger store.contest_map()[id]]
                m0.contains_key(id) ==> store.contest_map()[id] == if act.take(i as int).contains(id)
                    && accepts_entries(m0[id], now) {
                    contest_with_signal(m0[id], signal@)
                } else {
                    m0[id]
                },
        decreases act.len() - i,
    {
        let cid = store.active[i];
        proof {
            assert(act.contains(cid));
            assert(!act.take(i as int).contains(cid)) by {
                if act.take(i as int).contains(cid) {
                    let pre = act.take(i as int);
                    let k = choose|k: int| 0 <= k < pre.len() && pre[k] == cid;
                    assert(act[k] == act[i as int]);
                }
            }
            let n: int = i + 1;
            let pre = act.take(i as int);
            let post = act.take(n);
            assert forall|id: u64| #![trigger post.contains(id)]
                post.contains(id) <==> (pre.contains(id) || id == cid) by {
                if post.contains(id) {
                    let k = choose|k: int| 0 <= k < post.len() && post[k] == id;
                    if k < i {
                        assert(pre[k] == id);
                    }
                }
                if pre.contains(id) {
                    let k = choose|k: int| 0 <= k < pre.len() && pre[k] == id;
                    assert(post[k] == id);
                }
                if id == cid {
                    assert(post[i as int] == id);
                }
            }
        }
        match find_contest(&store.contests, cid) {
            Some(k) => {
                proof {
                    lemma_contest_at(store, k as int);
                }
                if store.contests[k].status == ContestStatus::Active && now
                    >= store.contests[k].start_time && now <= store.contests[k].end_time {
                    let ghost seq0 = store.contest_seq();
                    let ghost before = *store;
                    let mut c = store.contests.remove(k);
                    proof {
                        assert(c@ == m0[cid]);
                    }
                    enter_signal(&mut c, signal);
                    store.contests.insert(k, c);
                    proof {
                        assert(store.contest_seq() =~= seq0.update(k as int, c@));
                        lemma_keyed_update(seq0, contest_key(), k as int, c@);
                        assert forall|j: int|
                            0 <= j < store.contests@.len() implies distinct_who(
                            entry_views(#[trigger] store.contests@[j].entries@),
                            entry_who(),
                        ) by {
                            if j != k {
                                assert(store.contests@[j] == before.contests@[j]);
                            }
                        }
                        assert forall|j: int|
                            0 <= j < store.contests@.len() implies (
                            #[trigger] store.contests@[j]).id <= store.counter && store.contests@[j].prize_pool >= 0 by {
                            if j != k {
                                assert(store.contests@[j] == before.contests@[j]);
                            }
                        }
                        assert(store.contest_map() == before.contest_map().insert(cid, c@));
                        assert forall|q: (u64, Address)| #[trigger] store.prize_map().contains_key(q) implies store.contest_map().contains_key(q.0)
                            && store.contest_map()[q.0].status == ContestStatus::Finalized by {
                            assert(before.prize_map().contains_key(q));
                        }
                    }
                }
            },
            None => {
                proof {
                    lemma_contest_absent(store, cid);
                }
            },
        }
        i = i + 1;
    }
    proof {
        assert(act.take(act.len() as int) =~= act);
        assert(store.contest_map() =~= contests_after_signal(m0, act, signal@, now));
    }
    Ok(())
}

proof fn lemma_qualified_in(s: Seq<EntryView>, min: u32)
    requires
        distinct_who(s, entry_who()),
    ensures
        qualified_in(s, min) == qualified(keyed(s, entry_who()), min),
{
    let m = keyed(s, entry_who());
    assert(keys_distinct(s, entry_who()));
    assert forall|x: EntryView| qualified_in(s, min).contains(x) <==> qualified(m, min).contains(x) by {
        if s.contains(x) {
            let i = choose|i: int| 0 <= i < s.len() && s[i] == x;
            lemma_keyed_at(s, entry_who(), i);
            assert(m.values().contains(x));
        }
        if m.values().contains(x) {
            let k = choose|k: Address| m.contains_key(k) && m[k] == x;
            let i = choose|i: int| 0 <= i < s.len() && (entry_who())(#[trigger] s[i]) == k;
            lemma_keyed_at(s, entry_who(), i);
            assert(s[i] == x);
            assert(s.contains(x));
        }
    }
    assert(qualified_in(s, min) =~= qualified(m, min));
}

/// A copy of `e`.
fn copy_entry(e: &ContestEntry) -> (r: ContestEntry)
    ensures
        r@ == e@,
{
    let subs = e.signals_submitted.clone();
    proof {
        assert(subs@ =~= e.signals_submitted@);
    }
    ContestEntry {
        provider: e.provider,
        signals_submitted: subs,
        total_roi: e.total_roi,
        success_rate: e.success_rate,
        total_volume: e.total_volume,
        score: e.score,
    }
}

/// `a` ranks ahead of `b`: a higher score, or an equal score and an earlier
/// provider address.
fn entry_before(a: &ContestEntry, b: &ContestEntry) -> (r: bool)
    ensures
        r == ranks_before(a@, b@, entry_score(), entry_who()),
{
    a.score > b.score || (a.score == b.score && a.provider.before(&b.provider))
}

/// Copies of the entries with at least `min_signals` signals, in ranking order.
fn rank_entries(entries: &Vec<ContestEntry>, min_signals: u32) -> (r: Vec<ContestEntry>)
    requires
        distinct_who(entry_views(entries@), entry_who()),
    ensures
        ranks(entry_views(r@), qualified_in(entry_views(entries@), min_signals), entry_score(), entry_who()),
{
    let ghost ev = entry_views(entries@);
    let mut r: Vec<ContestEntry> = Vec::new();
    let mut i: usize = 0;
    while i < entries.len()
        invariant
            ev == entry_views(entries@),
            distinct_who(ev, entry_who()),
            i <= entries@.len(),
            strictly_ranked(entry_views(r@), entry_score(), entry_who()),
            forall|x: EntryView|
                #![trigger entry_views(r@).contains(x)]
                entry_views(r@).contains(x) <==> (ev.take(i as int).contains(x)
                    && x.signals_submitted.len() >= min_signals),
        decreases entries@.len() - i,
    {
        let ghost rv = entry_views(r@);
        let ghost pre = ev.take(i as int);
        let ghost n: int = i + 1;
        let ghost post = ev.take(n);
        proof {
            assert(ev[i as int] == entries@[i as int]@);
            assert forall|x: EntryView| #![trigger post.contains(x)]
                post.contains(x) <==> (pre.contains(x) || x == ev[i as int]) by {
                if post.contains(x) {
                    let k = choose|k: int| 0 <= k < post.len() && post[k] == x;
                    if k < i {
                        assert(pre[k] == x);
                    }
                }
                if pre.contains(x) {
                    let k = choose|k: int| 0 <= k < pre.len() && pre[k] == x;
                    assert(post[k] == x);
                }
                if x == ev[i as int] {
                    assert(post[i as int] == x);
                }
            }
        }
        if entries[i].signals_submitted.len() >= min_signals as usize {
            let mut p: usize = 0;
            while p < r.len() && !entry_before(&entries[i], &r[p])
                invariant
                    rv == entry_views(r@),
                    p <= r@.len(),
                    i < entries@.len(),
                    ev == entry_views(entries@),
                    distinct_who(ev, entry_who()),
                    forall|x: EntryView| #![trigger rv.contains(x)] rv.contains(x) ==> pre.contains(x),
                    pre == ev.take(i as int),
                    forall|q: int|
                        0 <= q < p ==> ranks_before(#[trigger] rv[q], ev[i as int], entry_score(), entry_who()),
                decreases r@.len() - p,
            {
                proof {
                    assert(rv[p as int] == r@[p as int]@);
                    assert(rv.contains(rv[p as int]));
                    assert(pre.contains(rv[p as int]));
                    let k = choose|k: int| 0 <= k < pre.len() && pre[k] == rv[p as int];
                    assert(ev[k] == rv[p as int]);
                    assert(ev[i as int] == entries@[i as int]@);
                    lemma_ranks_before_order(rv[p as int], ev[i as int], rv[p as int], entry_score(), entry_who());
                }
                p = p + 1;
            }
            let c = copy_entry(&entries[i]);
            proof {
                assert(c@ == ev[i as int]);
                lemma_insert_ranked(rv, p as int, c@, entry_score(), entry_who());
            }
            r.insert(p, c);
            proof {
                assert(entry_views(r@) =~= rv.insert(p as int, c@));
            }
        } else {
            proof {
                assert(ev[i as int] == entries@[i as int]@);
            }
        }
        proof {
            assert forall|x: EntryView| #![trigger entry_views(r@).contains(x)]
                entry_views(r@).contains(x) <==> (post.contains(x)
                    && x.signals_submitted.len() >= min_signals) by {
                assert(post.contains(x) <==> (pre.contains(x) || x == ev[i as int]));
                assert(rv.contains(x) <==> (pre.contains(x) && x.signals_submitted.len() >= min_signals));
            }
        }
        i = i + 1;
    }
    proof {
        assert(ev.take(entries@.len() as int) =~= ev);
        assert forall|x: EntryView|
            entry_views(r@).contains(x) <==> qualified_in(ev, min_signals).contains(x) by {}
    }
    r
}

/// The entries of contest `contest_id`, best first: by score, ties by
/// provider address.
pub fn get_contest_leaderboard(store: &ContestStore, contest_id: u64) -> (r: Result<
    Vec<ContestEntry>,
    ContestError,
>)
    requires
        store.wf(),
    ensures
        match r {
            Ok(v) => store.contest_map().contains_key(contest_id) && entry_views(v@) == ranking(
                store.contest_map()[contest_id].entries.values(),
                entry_score(),
                entry_who(),
            ),
            Err(e) => !store.contest_map().contains_key(contest_id) && e
                == ContestError::ContestNotFound,
        },
{
    let contest = get_contest(store, contest_id)?;
    let v = rank_entries(&contest.entries, 0);
    proof {
        let s = entry_views(contest.entries@);
        lemma_qualified_in(s, 0);
        assert(qualified(contest@.entries, 0) =~= contest@.entries.values());
        lemma_ranking_is(entry_views(v@), contest@.entries.values(), entry_score(), entry_who());
    }
    Ok(v)
}

/// Records `amount` as the prize of `provider` in contest `contest_id`.
fn set_prize(store: &mut ContestStore, contest_id: u64, provider: Address, amount: i128)
    requires
        keys_distinct(old(store).prizes@, prize_key()),
    ensures
        keys_distinct(final(store).prizes@, prize_key()),
        final(store).prize_map() == old(store).prize_map().insert((contest_id, provider), amount),
        final(store).counter == old(store).counter,
        final(store).contests@ == old(store).contests@,
        final(store).active@ == old(store).active@,
{
    let ghost p0 = store.prizes@;
    let award = PrizeAward { contest_id, provider, amount };
    let mut i: usize = 0;
    while i < store.prizes.len()
        invariant
            store.prizes@ == p0,
            p0 == old(store).prizes@,
            award == (PrizeAward { contest_id, provider, amount }),
            keys_distinct(p0, prize_key()),
            store.counter == old(store).counter,
            store.contests@ == old(store).contests@,
            store.active@ == old(store).active@,
            i <= p0.len(),
            forall|j: int| 0 <= j < i ==> (prize_key())(#[trigger] p0[j]) != (contest_id, provider),
        decreases p0.len() - i,
    {
        let a = store.prizes[i];
        if a.contest_id == contest_id && a.provider.same(&provider) {
            proof {
                assert(a == p0[i as int]);
                assert((prize_key())(award) == (prize_key())(p0[i as int]));
            }
            store.prizes.set(i, award);
            proof {
                lemma_keyed_update(p0, prize_key(), i as int, award);
                assert(store.prize_map() =~= old(store).prize_map().insert((contest_id, provider), amount));
            }
            return;
        }
        i = i + 1;
    }
    proof {
        lemma_keyed_absent(p0, prize_key(), (contest_id, provider));
    }
    store.prizes.push(award);
    proof {
        lemma_keyed_push(p0, prize_key(), award);
        assert(store.prize_map() =~= old(store).prize_map().insert((contest_id, provider), amount));
    }
}

/// Allots the prizes of finalized contest `contest_id`: 50%, 30% and 20%
/// of the pool to the first three winners (rounded down); nothing when the
/// pool is empty.
fn distribute_prize_pool(
    store: &mut ContestStore,
    contest_id: u64,
    prize_pool: i128,
    winners: &Vec<Address>,
) -> (r: Result<(), ContestError>)
    requires
        old(store).wf(),
        prize_pool >= 0,
        old(store).contest_map().contains_key(contest_id),
        old(store).contest_map()[contest_id].status == ContestStatus::Finalized,
        prize_pool != 0 && winners@.len() > 0 ==> prize_pool * 50 <= i128::MAX,
    ensures
        r is Ok,
        final(store).wf(),
        final(store).counter == old(store).counter,
        final(store).contests@ == old(store).contests@,
        final(store).active@ == old(store).active@,
        final(store).prize_map() == prizes_after_finalize(
            old(store).prize_map(),
            contest_id,
            winners@.take(if winners@.len() < 3 { winners@.len() as int } else { 3 }),
            prize_pool,
        ),
{
    let ghost m0 = store.prize_map();
    let n: usize = if winners.len() < 3 {
        winners.len()
    } else {
        3
    };
    if prize_pool == 0 || winners.len() == 0 {
        return Ok(());
    }
    let mut i: usize = 0;
    while i < n
        invariant
            n <= winners@.len(),
            n <= 3,
            i <= n,
            prize_pool > 0,
            prize_pool * 50 <= i128::MAX,
            store.wf(),
            store.counter == old(store).counter,
            store.contests@ == old(store).contests@,
            store.active@ == old(store).active@,
            store.prize_map() == award_prizes(m0, contest_id, winners@.take(i as int), prize_pool),
            store.contest_map().contains_key(contest_id),
            store.contest_map()[contest_id].status == ContestStatus::Finalized,
        decreases n - i,
    {
        let winner = winners[i];
        let percent: i128 = if i == 0 {
            50
        } else if i == 1 {
            30
        } else {
            20
        };
        proof {
            assert(prize_pool * percent <= prize_pool * 50) by (nonlinear_arith)
                requires
                    prize_pool > 0,
                    percent <= 50,
            ;
            assert(prize_pool * percent >= 0) by (nonlinear_arith)
                requires
                    prize_pool > 0,
                    percent > 0,
            ;
        }
        let prize = (prize_pool * percent) / 100;
        let ghost before = winners@.take(i as int);
        let ghost pm = store.prize_map();
        let ghost cm = store.contest_map();
        set_prize(store, contest_id, winner, prize);
        proof {
            assert(store.contest_map() == cm);
            assert forall|q: (u64, Address)| #[trigger] store.prize_map().contains_key(q) implies store.contest_map().contains_key(q.0)
                && store.contest_map()[q.0].status == ContestStatus::Finalized by {
                if q != (contest_id, winner) {
                    assert(pm.contains_key(q));
                }
            }
            let after = winners@.take(i + 1);
            assert(after.drop_last() =~= before);
            assert(after.last() == winner);
            assert(prize == prize_share(prize_pool, after.len() - 1));
        }
        i = i + 1;
    }
    Ok(())
}

/// A copy of `v`.
fn copy_addresses(v: &Vec<Address>) -> (r: Vec<Address>)
    ensures
        r@ == v@,
{
    let mut r: Vec<Address> = Vec::new();
    let mut i: usize = 0;
    while i < v.len()
        invariant
            i <= v@.len(),
            r@ == v@.take(i as int),
        decreases v@.len() - i,
    {
        r.push(v[i]);
        proof {
            assert(r@ =~= v@.take(i + 1));
        }
        i = i + 1;
    }
    proof {
        assert(v@.take(v@.len() as int) =~= v@);
    }
    r
}

/// Closes contest `contest_id` at ledger time `now`: once its end time has
/// passed, the three best qualified entrants win, their prizes are allotted,
/// the contest is marked finalized and leaves the active list.
pub fn finalize_contest(store: &mut ContestStore, contest_id: u64, now: u64) -> (r: Result<
    Vec<Address>,
    ContestError,
>)
    requires
        old(store).wf(),
        finalize_proceeds(old(store).contest_map(), contest_id, now) && contest_winners(
            old(store).contest_map()[contest_id],
        ).len() > 0 ==> old(store).contest_map()[contest_id].prize_pool * 50 <= i128::MAX,
    ensures
        final(store).wf(),
        contest_closed(*old(store), *final(store), contest_id, now, r),
{
    let idx = match find_contest(&store.contests, contest_id) {
        Some(i) => i,
        None => {
            proof {
                lemma_contest_absent(store, contest_id);
            }
            return Err(ContestError::ContestNotFound);
        },
    };
    proof {
        lemma_contest_at(store, idx as int);
    }
    let ghost c0 = store.contests@[idx as int]@;
    if now < store.contests[idx].end_time {
        return Err(ContestError::ContestNotEnded);
    }
    if store.contests[idx].status != ContestStatus::Active {
        return Err(ContestError::AlreadyFinalized);
    }
    let ranked = rank_entries(&store.contests[idx].entries, store.contests[idx].min_signals);
    let ghost rv = entry_views(ranked@);
    proof {
        let s = entry_views(store.contests@[idx as int].entries@);
        lemma_qualified_in(s, c0.min_signals);
        lemma_ranking_is(rv, qualified(c0.entries, c0.min_signals), entry_score(), entry_who());
    }
    let winner_count: usize = if ranked.len() < 3 {
        ranked.len()
    } else {
        3
    };
    let mut winners: Vec<Address> = Vec::new();
    let mut i: usize = 0;
    while i < winner_count
        invariant
            winner_count <= ranked@.len(),
            rv == entry_views(ranked@),
            i <= winner_count,
            winners@ == Seq::new(i as nat, |j: int| rv[j].provider),
        decreases winner_count - i,
    {
        winners.push(ranked[i].provider);
        proof {
            assert(winners@ =~= Seq::new((i + 1) as nat, |j: int| rv[j].provider));
        }
        i = i + 1;
    }
    proof {
        assert(winners@ =~= contest_winners(c0));
    }
    let pool = store.contests[idx].prize_pool;
    let ghost m_prizes = store.prize_map();
    let ghost seq0 = store.contest_seq();
    let ghost before = *store;
    let mut c = store.contests.remove(idx);
    c.winners = copy_addresses(&winners);
    c.status = ContestStatus::Finalized;
    let ghost cv = c@;
    store.contests.insert(idx, c);
    proof {
        assert(cv.entries == c0.entries);
        assert(cv == finalized(c0));
        assert(store.contest_seq() =~= seq0.update(idx as int, cv));
        lemma_keyed_update(seq0, contest_key(), idx as int, cv);
        assert forall|j: int|
            0 <= j < store.contests@.len() implies distinct_who(
            entry_views(#[trigger] store.contests@[j].entries@),
            entry_who(),
        ) && store.contests@[j].id <= store.counter && store.contests@[j].prize_pool >= 0 by {
            if j != idx {
                assert(store.contests@[j] == before.contests@[j]);
            }
        }
    }
    let ghost act = store.active@;
    let mut new_active: Vec<u64> = Vec::new();
    let mut k: usize = 0;
    while k < store.active.len()
        invariant
            act == store.active@,
            act.no_duplicates(),
            forall|j: int| 0 <= j < act.len() ==> #[trigger] act[j] <= store.counter,
            k <= act.len(),
            new_active@ == without_id(act.take(k as int), contest_id),
            new_active@.no_duplicates(),
            forall|j: int|
                0 <= j < new_active@.len() ==> act.take(k as int).contains(#[trigger] new_active@[j]),
            forall|a: int, b: int| 0 <= a < b < act.len() ==> #[trigger] act[a] < #[trigger] act[b],
            forall|a: int, b: int|
                0 <= a < b < new_active@.len() ==> #[trigger] new_active@[a] < #[trigger] new_active@[b],
        decreases act.len() - k,
    {
        let x = store.active[k];
        let ghost pre = act.take(k as int);
        let ghost nk: int = k + 1;
        let ghost post = act.take(nk);
        proof {
            assert(post.drop_last() =~= pre);
            assert(post.last() == x);
            reveal_with_fuel(Seq::<_>::filter, 1);
            assert(!pre.contains(x)) by {
                if pre.contains(x) {
                    let q = choose|q: int| 0 <= q < pre.len() && pre[q] == x;
                    assert(act[q] == act[k as int]);
                }
            }
            assert forall|j: int| 0 <= j < new_active@.len() implies post.contains(
                #[trigger] new_active@[j],
            ) by {
                let q = choose|q: int| 0 <= q < pre.len() && pre[q] == new_active@[j];
                assert(post[q] == pre[q]);
            }
        }
        if x != contest_id {
            proof {
                assert forall|j: int| 0 <= j < new_active@.len() implies new_active@[j] < x by {
                    let q = choose|q: int| 0 <= q < pre.len() && pre[q] == new_active@[j];
                    assert(act[q] < act[k as int]);
                }
            }
            new_active.push(x);
            proof {
                assert(post.contains(x)) by {
                    assert(post[k as int] == x);
                }
            }
        }
        k = k + 1;
    }
    proof {
        assert(act.take(act.len() as int) =~= act);
        assert forall|j: int| 0 <= j < new_active@.len() implies #[trigger] new_active@[j] <= store.counter by {
            let q = choose|q: int| 0 <= q < act.len() && act[q] == new_active@[j];
        }
    }
    store.active = new_active;
    if winners.len() > 0 {
        distribute_prize_pool(store, contest_id, pool, &winners)?;
        proof {
            assert(winners@.take(winners@.len() as int) =~= winners@);
        }
    }
    Ok(winners)
}

/// Opens a contest running from `start_time` to `end_time` with a
/// non-negative prize pool; `now` is the ledger time.  The new contest gets
/// the next id and is listed as active.
pub fn create_contest(
    store: &mut ContestStore,
    name: String,
    start_time: u64,
    end_time: u64,
    metric: ContestMetric,
    min_signals: u32,
    prize_pool: i128,
    now: u64,
) -> (r: Result<u64, ContestError>)
    requires
        old(store).wf(),
        start_time < end_time && now < end_time && prize_pool >= 0 ==> old(store).counter
            < u64::MAX,
    ensures
        final(store).wf(),
        contest_created(
            *old(store),
            *final(store),
            name@,
            start_time,
            end_time,
            metric,
            min_signals,
            prize_pool,
            now,
            r,
        ),
{
    if start_time >= end_time {
        return Err(ContestError::InvalidTimeRange);
    }
    if end_time <= now {
        return Err(ContestError::InvalidTimeRange);
    }
    if prize_pool < 0 {
        return Err(ContestError::InvalidPrizePool);
    }
    let contest_id = store.counter + 1;
    let contest = Contest {
        id: contest_id,
        name,
        start_time,
        end_time,
        metric,
        min_signals,
        entries: Vec::new(),
        winners: Vec::new(),
        prize_pool,
        status: ContestStatus::Active,
    };
    proof {
        assert forall|j: int| 0 <= j < store.contests@.len() implies (
        #[trigger] store.contests@[j]).id != contest_id by {}
        lemma_contest_absent(store, contest_id);
        assert(contest.view().entries =~= Map::<Address, EntryView>::empty());
        assert(store.contest_seq().push(contest@) =~= contest_views(store.contests@.push(contest)));
        lemma_keyed_push(store.contest_seq(), contest_key(), contest@);
    }
    let ghost old_active = store.active@;
    let ghost old_map = store.contest_map();
    let ghost cv = contest@;
    store.counter = contest_id;
    store.contests.push(contest);
    store.active.push(contest_id);
    proof {
        assert(forall|i: int| 0 <= i < old_active.len() ==> old_active[i] != contest_id);
        assert(store.contest_map() == old_map.insert(contest_id, cv));
        assert forall|q: (u64, Address)| #[trigger] store.prize_map().contains_key(q) implies store.contest_map().contains_key(q.0)
            && store.contest_map()[q.0].status == ContestStatus::Finalized by {
            assert(store.prizes@ == old(store).prizes@);
            assert(old(store).prize_map().contains_key(q));
            assert(old(store).prizes_settled());
            assert(old_map.contains_key(q.0));
            assert(q.0 != contest_id);
        }
        assert forall|id: u64|
            #![trigger store.active@.contains(id)]
            #![trigger store.contest_map().contains_key(id)]
            store.active@.contains(id) <==> (store.contest_map().contains_key(id)
                && store.contest_map()[id].status == ContestStatus::Active) by {
            if id != contest_id {
                if old_active.contains(id) {
                    let k = choose|k: int| 0 <= k < old_active.len() && old_active[k] == id;
                    assert(store.active@[k] == id);
                }
                if store.active@.contains(id) {
                    let k = choose|k: int| 0 <= k < store.active@.len() && store.active@[k] == id;
                    assert(old_active[k] == id);
                }
            } else {
                assert(store.active@[old_active.len() as int] == id);
            }
        }
        assert forall|i: int|
            0 <= i < store.contests@.len() implies distinct_who(
            entry_views(#[trigger] store.contests@[i].entries@),
            entry_who(),
        ) by {
            if i == store.contests@.len() - 1 {
                assert(entry_views(store.contests@[i].entries@) =~= Seq::<EntryView>::empty());
            }
        }
    }
    Ok(contest_id)
}

/// The contest with id `contest_id`.
pub fn get_contest(store: &ContestStore, contest_id: u64) -> (r: Result<&Contest, ContestError>)
    requires
        store.wf(),
    ensures
        match r {
            Ok(c) => {
                &&& store.contest_map().contains_key(contest_id)
                &&& c@ == store.contest_map()[contest_id]
                &&& distinct_who(entry_views(c.entries@), entry_who())
            },
            Err(e) => !store.contest_map().contains_key(contest_id) && e
                == ContestError::ContestNotFound,
        },
{
    match find_contest(&store.contests, contest_id) {
        Some(i) => {
            proof {
                lemma_contest_at(store, i as int);
            }
            Ok(&store.contests[i])
        },
        None => {
            proof {
                lemma_contest_absent(store, contest_id);
            }
            Err(ContestError::ContestNotFound)
        },
    }
}

/// Ids of the contests still running, in creation order.
pub fn get_active_contests(store: &ContestStore) -> (r: &Vec<u64>)
    ensures
        r@ == store.active@,
{
    &store.active
}

/// The prize allotted to `provider` in contest `contest_id` (0 if none).
pub fn get_provider_prize(store: &ContestStore, contest_id: u64, provider: Address) -> (r: i128)
    requires
        store.wf(),
    ensures
        r == if store.prize_map().contains_key((contest_id, provider)) {
            store.prize_map()[(contest_id, provider)]
        } else {
            0
        },
{
    let mut i: usize = 0;
    while i < store.prizes.len()
        invariant
            i <= store.prizes@.len(),
            keys_distinct(store.prizes@, prize_key()),
            forall|j: int|
                0 <= j < i ==> (prize_key())(#[trigger] store.prizes@[j]) != (contest_id, provider),
        decreases store.prizes@.len() - i,
    {
        let a = store.prizes[i];
        if a.contest_id == contest_id && a.provider.same(&provider) {
            proof {
                lemma_keyed_at(store.prizes@, prize_key(), i as int);
            }
            return a.amount;
        }
        i = i + 1;
    }
    proof {
        lemma_keyed_absent(store.prizes@, prize_key(), (contest_id, provider));
    }
    0
}

} // verus!

verus! {

/// The three prize shares are never negative and together never exceed the
/// pool.
pub proof fn law_prize_shares_within_pool(pool: i128)
    requires
        pool >= 0,
    ensures
        prize_share(pool, 0) >= 0,
        prize_share(pool, 1) >= 0,
        prize_share(pool, 2) >= 0,
        prize_share(pool, 0) + prize_share(pool, 1) + prize_share(pool, 2) <= pool,
{
    let p = pool as int;
    assert(p * 50 / 100 + p * 30 / 100 + p * 20 / 100 <= p) by (nonlinear_arith)
        requires
            p >= 0,
    ;
    assert(p * 50 / 100 >= 0 && p * 30 / 100 >= 0 && p * 20 / 100 >= 0) by (nonlinear_arith)
        requires
            p >= 0,
    ;
}

/// The contest stored under `id`, its position and its entries' values.
proof fn lemma_stored_contest(s: &ContestStore, id: u64) -> (i: int)
    requires
        s.wf(),
        s.contest_map().contains_key(id),
    ensures
        0 <= i < s.contests@.len(),
        s.contests@[i]@ == s.contest_map()[id],
        distinct_who(entry_views(s.contests@[i].entries@), entry_who()),
{
    let q = s.contest_seq();
    let i = choose|i: int| 0 <= i < q.len() && (contest_key())(#[trigger] q[i]) == id;
    assert(q[i] == s.contests@[i]@);
    lemma_contest_at(s, i);
    i
}

/// The qualified entries of a stored contest have a ranking.
proof fn lemma_stored_ranking(s: &ContestStore, id: u64)
    requires
        s.wf(),
        s.contest_map().contains_key(id),
    ensures
        ({
            let c = s.contest_map()[id];
            let q = qualified(c.entries, c.min_signals);
            ranks(ranking(q, entry_score(), entry_who()), q, entry_score(), entry_who())
        }),
        forall|k: Address|
            #![trigger s.contest_map()[id].entries[k]]
            s.contest_map()[id].entries.contains_key(k) ==> s.contest_map()[id].entries[k].provider == k,
{
    let i = lemma_stored_contest(s, id);
    let c = s.contest_map()[id];
    let ev = entry_views(s.contests@[i].entries@);
    let keep = |x: EntryView| x.signals_submitted.len() >= c.min_signals;
    lemma_ranking_exists(ev, keep, entry_score(), entry_who());
    assert(kept(ev, keep) =~= qualified_in(ev, c.min_signals));
    lemma_qualified_in(ev, c.min_signals);
    assert forall|k: Address| #![trigger c.entries[k]] c.entries.contains_key(k) implies c.entries[k].provider == k by {
        lemma_keyed_value_key(ev, entry_who(), k);
    }
}

/// The winners of a stored contest: at most three, all different, each a
/// qualified entrant, listed best first; and no qualified entrant left out
/// scores above any winner.
pub proof fn law_winners_are_best_qualified(s: &ContestStore, id: u64)
    requires
        s.wf(),
        s.contest_map().contains_key(id),
    ensures
        ({
            let c = s.contest_map()[id];
            let w = contest_winners(c);
            &&& w.len() <= 3
            &&& w.no_duplicates()
            &&& forall|i: int|
                0 <= i < w.len() ==> c.entries.contains_key(#[trigger] w[i])
                    && c.entries[w[i]].signals_submitted.len() >= c.min_signals
            &&& forall|i: int, j: int|
                0 <= i < j < w.len() ==> c.entries[#[trigger] w[i]].score >= c.entries[#[trigger] w[j]].score
            &&& forall|p: Address, i: int|
                #![trigger c.entries[p], w[i]]
                c.entries.contains_key(p) && c.entries[p].signals_submitted.len() >= c.min_signals
                    && !w.contains(p) && 0 <= i < w.len() ==> c.entries[p].score <= c.entries[w[i]].score
        }),
{
    lemma_stored_ranking(s, id);
    let c = s.contest_map()[id];
    let q = qualified(c.entries, c.min_signals);
    let r = ranking(q, entry_score(), entry_who());
    let w = contest_winners(c);
    assert forall|i: int| 0 <= i < r.len() implies c.entries.contains_key((#[trigger] r[i]).provider)
        && c.entries[r[i].provider] == r[i] by {
        assert(r.contains(r[i]));
        assert(q.contains(r[i]));
        let k = choose|k: Address| c.entries.contains_key(k) && c.entries[k] == r[i];
        assert(c.entries[k].provider == k);
    }
    assert forall|i: int| 0 <= i < w.len() implies c.entries.contains_key(#[trigger] w[i])
        && c.entries[w[i]] == r[i] && c.entries[w[i]].signals_submitted.len() >= c.min_signals by {
        assert(w[i] == r[i].provider);
        assert(q.contains(r[i]));
    }
    assert forall|i: int, j: int| 0 <= i < j < w.len() implies c.entries[#[trigger] w[i]].score
        >= c.entries[#[trigger] w[j]].score by {
        assert(ranks_before(r[i], r[j], entry_score(), entry_who()));
    }
    assert(w.no_duplicates()) by {
        assert forall|i: int, j: int| 0 <= i < w.len() && 0 <= j < w.len() && i != j implies w[i] != w[j] by {
            if w[i] == w[j] {
                assert(r[i] == c.entries[w[i]]);
                assert(r[j] == c.entries[w[j]]);
                if i < j {
                    assert(ranks_before(r[i], r[j], entry_score(), entry_who()));
                } else {
                    assert(ranks_before(r[j], r[i], entry_score(), entry_who()));
                }
                lemma_ranks_before_order(r[i], r[i], r[i], entry_score(), entry_who());
            }
        }
    }
    assert forall|p: Address, i: int|
        #![trigger c.entries[p], w[i]]
        c.entries.contains_key(p) && c.entries[p].signals_submitted.len() >= c.min_signals
            && !w.contains(p) && 0 <= i < w.len() implies c.entries[p].score <= c.entries[w[i]].score by {
        let e = c.entries[p];
        assert(c.entries.values().contains(e));
        assert(q.contains(e));
        assert(r.contains(e));
        let j = choose|j: int| 0 <= j < r.len() && r[j] == e;
        assert(e.provider == p);
        if j < w.len() {
            assert(w[j] == p);
            assert(w.contains(p));
        }
        assert(ranks_before(r[i], r[j], entry_score(), entry_who()));
    }
}

/// A fresh contest id never collides with a stored contest or an active id.
pub proof fn law_fresh_contest_id(s: &ContestStore)
    requires
        s.wf(),
        s.counter < u64::MAX,
    ensures
        !s.contest_map().contains_key((s.counter + 1) as u64),
        !s.active@.contains((s.counter + 1) as u64),
{
    if s.contest_map().contains_key((s.counter + 1) as u64) {
        let i = lemma_stored_contest(s, (s.counter + 1) as u64);
    }
}

/// A contest that finalizing went through cannot be finalized again, at
/// any time.
pub proof fn law_finalize_at_most_once(m: Map<u64, ContestView>, id: u64, now: u64, later: u64)
    requires
        finalize_proceeds(m, id, now),
    ensures
        !finalize_proceeds(m.insert(id, finalized(m[id])), id, later),
{
}

/// Finalizing takes the contest off the active list and keeps the others.
pub proof fn law_finalize_deactivates(active: Seq<u64>, id: u64)
    ensures
        !without_id(active, id).contains(id),
        forall|x: u64| x != id ==> (#[trigger] without_id(active, id).contains(x) <==> active.contains(x)),
{
    let pred = other_than(id);
    if without_id(active, id).contains(id) {
        active.lemma_filter_contains_rev(pred, id);
    }
    assert forall|x: u64| x != id implies (#[trigger] without_id(active, id).contains(x) <==> active.contains(x)) by {
        if without_id(active, id).contains(x) {
            active.lemma_filter_contains_rev(pred, x);
        }
        if active.contains(x) {
            let i = choose|i: int| 0 <= i < active.len() && active[i] == x;
            active.lemma_filter_contains(pred, i);
        }
    }
}


/// The active list names exactly the stored contests that are still
/// active, each once, in increasing id order, which is the order they were
/// created in.  Creating a contest appends its id, finalizing one takes it
/// off, and entering a signal leaves the list as it is (see
/// `contest_created`, `contest_closed` and `auto_enter_signal`), so the list
/// holds the ids created, in order, less those finalized.
pub proof fn law_active_contests_listed(s: &ContestStore)
    requires
        s.wf(),
    ensures
        forall|id: u64|
            #[trigger] s.active@.contains(id) <==> (s.contest_map().contains_key(id) && s.contest_map()[id].status
                == ContestStatus::Active),
        forall|i: int, j: int| 0 <= i < j < s.active@.len() ==> s.active@[i] < s.active@[j],
        s.active@.no_duplicates(),
{
}


/// Allotting prizes adds entries for the contest's winners only.
proof fn lemma_award_keys(m: Map<(u64, Address), i128>, id: u64, winners: Seq<Address>, pool: i128, k: (u64, Address))
    requires
        award_prizes(m, id, winners, pool).contains_key(k),
    ensures
        m.contains_key(k) || (k.0 == id && winners.contains(k.1)),
    decreases winners.len(),
{
    if winners.len() > 0 {
        if k != (id, winners.last()) {
            lemma_award_keys(m, id, winners.drop_last(), pool, k);
            if k.0 == id && winners.drop_last().contains(k.1) {
                let j = choose|j: int| 0 <= j < winners.drop_last().len() && winners.drop_last()[j] == k.1;
                assert(winners[j] == k.1);
            }
        } else {
            assert(winners[winners.len() - 1] == k.1);
        }
    }
}

/// Once a contest is finalized, prizes in it are held by its winners only:
/// none was recorded while it ran.
pub proof fn law_prizes_go_to_winners(
    s0: ContestStore,
    s1: ContestStore,
    id: u64,
    now: u64,
    r: Result<Vec<Address>, ContestError>,
    p: Address,
)
    requires
        s0.wf(),
        contest_closed(s0, s1, id, now, r),
        r is Ok,
        s1.prize_map().contains_key((id, p)),
    ensures
        contest_winners(s0.contest_map()[id]).contains(p),
{
    let c = s0.contest_map()[id];
    let w = contest_winners(c);
    if !(c.prize_pool == 0 || w.len() == 0) {
        lemma_award_keys(s0.prize_map(), id, w, c.prize_pool, (id, p));
    }
    assert(!s0.prize_map().contains_key((id, p)));
}


/// A call on the contest store together with what it returned.
pub enum ContestCall {
    Create {
        name: Seq<char>,
        start_time: u64,
        end_time: u64,
        metric: ContestMetric,
        min_signals: u32,
        prize_pool: i128,
        now: u64,
        result: Result<u64, ContestError>,
    },
    Enter { signal: SignalView, now: u64 },
    Finalize { id: u64, now: u64, outcome: Result<Vec<Address>, ContestError> },
}

/// `s1` is the store after `call` ran on `s0`, as the contract of
/// `create_contest`, `auto_enter_signal` or `finalize_contest` says.
pub open spec fn contest_call_done(s0: ContestStore, s1: ContestStore, call: ContestCall) -> bool {
    match call {
        ContestCall::Create { name, start_time, end_time, metric, min_signals, prize_pool, now, result } => {
            contest_created(s0, s1, name, start_time, end_time, metric, min_signals, prize_pool, now, result)
        },
        ContestCall::Enter { signal, now } => {
            &&& s1.contest_map() == contests_after_signal(s0.contest_map(), s0.active@, signal, now)
            &&& s1.counter == s0.counter
            &&& s1.active@ == s0.active@
            &&& s1.prizes@ == s0.prizes@
        },
        ContestCall::Finalize { id, now, outcome } => contest_closed(s0, s1, id, now, outcome),
    }
}

/// The ids that `calls` created, in call order, less those they finalized.
pub open spec fn created_less_finalized(calls: Seq<ContestCall>) -> Seq<u64>
    decreases calls.len(),
{
    if calls.len() == 0 {
        Seq::empty()
    } else {
        let earlier = created_less_finalized(calls.drop_last());
        match calls.last() {
            ContestCall::Create { result: Ok(id), .. } => earlier.push(id),
            ContestCall::Finalize { id, outcome: Ok(_), .. } => without_id(earlier, id),
            _ => earlier,
        }
    }
}

/// Starting from a store with no active contests, after any run of contest
/// creations, signal entries and finalizations, the active list is the ids
/// created, in call order, less those finalized; and (law
/// `law_active_contests_listed`) each listed id is a stored active contest,
/// listed once.
pub proof fn law_active_contests_over_calls(states: Seq<ContestStore>, calls: Seq<ContestCall>)
    requires
        states.len() == calls.len() + 1,
        states[0].active@ == Seq::<u64>::empty(),
        forall|i: int| #![trigger calls[i]] 0 <= i < calls.len() ==> contest_call_done(states[i], states[i + 1], calls[i]),
    ensures
        states.last().active@ == created_less_finalized(calls),
    decreases calls.len(),
{
    if calls.len() > 0 {
        let n = calls.len() - 1;
        let st = states.drop_last();
        let cs = calls.drop_last();
        assert forall|i: int| #![trigger cs[i]] 0 <= i < cs.len() implies contest_call_done(st[i], st[i + 1], cs[i]) by {
            assert(calls[i] == cs[i]);
        }
        law_active_contests_over_calls(st, cs);
        assert(contest_call_done(states[n], states[n + 1], calls[n]));
        assert(st.last() == states[n]);
    }
}


/// A contest scores an entry by its metric: highest ROI by the entry's
/// total ROI, best success rate by its success rate, most volume by its
/// total volume, and most followers by nothing (zero).
pub proof fn law_contest_score_by_metric(e: EntryView, metric: ContestMetric)
    ensures
        metric == ContestMetric::HighestROI ==> score_for(e, metric) == e.total_roi,
        metric == ContestMetric::BestSuccessRate ==> score_for(e, metric) == e.success_rate as i128,
        metric == ContestMetric::MostVolume ==> score_for(e, metric) == e.total_volume,
        metric == ContestMetric::MostFollowers ==> score_for(e, metric) == 0,
{
}

/// When a signal is entered in a running, listed contest, its provider's
/// entry gains the signal: the signal's id is appended to the entry's
/// signals, its ROI and volume are added to the entry's totals, and the
/// entry is scored by the contest's metric on its new totals.  Every
/// other entry, and every contest that is not running or not listed, stays
/// as it was.
pub proof fn law_entered_signal_scored_by_metric(
    m: Map<u64, ContestView>,
    active: Seq<u64>,
    signal: SignalView,
    now: u64,
    id: u64,
    p: Address,
)
    requires
        m.contains_key(id),
        active.contains(id) && accepts_entries(m[id], now) ==> can_count(m[id], signal),
    ensures
        contests_after_signal(m, active, signal, now).contains_key(id),
        !(active.contains(id) && accepts_entries(m[id], now)) ==> contests_after_signal(m, active, signal, now)[id]
            == m[id],
        active.contains(id) && accepts_entries(m[id], now) ==> {
            let c = m[id];
            let c1 = contests_after_signal(m, active, signal, now)[id];
            let before = current_entry(c, signal.provider);
            let e = c1.entries[signal.provider];
            &&& c1.entries.contains_key(signal.provider)
            &&& c1.metric == c.metric && c1.status == c.status && c1.prize_pool == c.prize_pool
            &&& e.signals_submitted == before.signals_submitted.push(signal.id)
            &&& e.total_roi == before.total_roi + signal.total_roi
            &&& e.total_volume == before.total_volume + signal.total_volume
            &&& (c.metric == ContestMetric::HighestROI ==> e.score == e.total_roi)
            &&& (c.metric == ContestMetric::BestSuccessRate ==> e.score == e.success_rate as i128)
            &&& (c.metric == ContestMetric::MostVolume ==> e.score == e.total_volume)
            &&& (c.metric == ContestMetric::MostFollowers ==> e.score == 0)
            &&& (p != signal.provider ==> (c1.entries.contains_key(p) == c.entries.contains_key(p))
                && (c.entries.contains_key(p) ==> c1.entries[p] == c.entries[p]))
        },
{
}

} // verus!
