//! The signal registry's state and queries: signals by id, provider
//! statistics, the feed filter, provider rankings, and the entry points that
//! hand signals to the contest and versioning modules.

use vstd::prelude::*;
use crate::contests::{self, Contest, ContestEntry, ContestMetric, ContestStore};
use crate::errors::{AdminError, AssetPairError, ContestError, PerformanceError, TemplateError, VersioningError};
use crate::keyed::{keyed, keys_distinct, lemma_keyed_absent, lemma_keyed_at};
use crate::ranking::{distinct_who, lemma_insert_ranked, lemma_ranking_is, lemma_ranks_before_order, ranking, ranks, ranks_before, strictly_ranked};
use crate::types::{Address, ProviderPerformance, RiskLevel, Signal, SignalAction, SignalCategory, SignalStatus, SignalView};
use crate::versioning::{self, CopyRecord, SignalVersion, VersionStore};

verus! {

/// Storage keys of the registry.
#[derive(Copy, Clone, Debug, PartialEq, Eq, Structural)]
pub enum StorageKey {
    SignalCounter,
    TradeCounter,
    Signals,
    ProviderStats,
    TradeExecutions,
    TemplateCounter,
    Templates,
    ExternalIdMappings,
    ComboCounter,
    Combos,
    ComboExecutions(u64),
}

/// All registry state.
#[derive(Debug)]
pub struct SignalRegistry {
    pub signal_counter: u64,
    pub trade_counter: u64,
    /// Signals in ascending id order.
    pub signals: Vec<Signal>,
    pub provider_stats: Vec<(Address, ProviderPerformance)>,
    pub contests: ContestStore,
    pub versions: VersionStore,
}

pub open spec fn signal_views(v: Seq<Signal>) -> Seq<SignalView> {
    Seq::new(v.len(), |i: int| v[i]@)
}

pub open spec fn str_views(v: Seq<String>) -> Seq<Seq<char>> {
    Seq::new(v.len(), |i: int| v[i]@)
}

pub open spec fn signal_key() -> spec_fn(SignalView) -> u64 {
    |s: SignalView| s.id
}

pub open spec fn stat_key() -> spec_fn((Address, ProviderPerformance)) -> Address {
    |x: (Address, ProviderPerformance)| x.0
}

pub open spec fn stat_score() -> spec_fn((Address, ProviderPerformance)) -> int {
    |x: (Address, ProviderPerformance)| x.1.success_rate as int
}

/// The records listed in `s`.
pub open spec fn listed<T>(s: Seq<T>) -> Set<T> {
    Set::new(|x: T| s.contains(x))
}

impl SignalRegistry {
    pub open spec fn signal_seq(&self) -> Seq<SignalView> {
        signal_views(self.signals@)
    }

    /// Signals by id.
    pub open spec fn signal_map(&self) -> Map<u64, SignalView> {
        keyed(self.signal_seq(), signal_key())
    }

    /// Provider statistics by provider.
    pub open spec fn stats_map(&self) -> Map<Address, ProviderPerformance> {
        keyed(self.provider_stats@, stat_key()).map_values(|x: (Address, ProviderPerformance)| x.1)
    }

    /// The registry's invariant: signals are held in strictly ascending id
    /// order, every id stems from the counter, a provider has at most one
    /// statistics record, and the contest and versioning stores are
    /// well formed.
    pub open spec fn wf(&self) -> bool {
        &&& forall|i: int, j: int|
            0 <= i < j < self.signals@.len() ==> (#[trigger] self.signals@[i]).id
                < (#[trigger] self.signals@[j]).id
        &&& forall|i: int| 0 <= i < self.signals@.len() ==> (#[trigger] self.signals@[i]).id <= self.signal_counter
        &&& distinct_who(self.provider_stats@, stat_key())
        &&& self.contests.wf()
        &&& self.versions.wf()
    }

    /// An empty registry.
    pub fn new() -> (r: Self)
        ensures
            r.wf(),
            r.signal_counter == 0,
            r.trade_counter == 0,
            r.signal_map() == Map::<u64, SignalView>::empty(),
            r.stats_map() == Map::<Address, ProviderPerformance>::empty(),
            r.contests.counter == 0,
            r.contests.contest_map() == Map::<u64, contests::ContestView>::empty(),
            r.contests.active@ == Seq::<u64>::empty(),
            r.contests.prize_map() == Map::<(u64, Address), i128>::empty(),
            r.versions.track_map() == Map::<u64, versioning::UpdateTrack>::empty(),
            r.versions.version_map() == Map::<(u64, u32), versioning::SignalVersionView>::empty(),
            r.versions.copy_map() == Map::<(Address, u64), versioning::CopyRecordView>::empty(),
    {
        let r = SignalRegistry {
            signal_counter: 0,
            trade_counter: 0,
            signals: Vec::new(),
            provider_stats: Vec::new(),
            contests: ContestStore::new(),
            versions: VersionStore::new(),
        };
        assert(r.signal_map() =~= Map::<u64, SignalView>::empty());
        assert(r.stats_map() =~= Map::<Address, ProviderPerformance>::empty());
        r
    }

    proof fn lemma_signal_keys(&self)
        requires
            self.wf(),
        ensures
            keys_distinct(self.signal_seq(), signal_key()),
    {
        assert forall|i: int, j: int|
            0 <= i < self.signal_seq().len() && 0 <= j < self.signal_seq().len() && i != j implies (
        signal_key())(#[trigger] self.signal_seq()[i]) != (signal_key())(#[trigger] self.signal_seq()[j]) by {
            assert(self.signal_seq()[i] == self.signals@[i]@);
            assert(self.signal_seq()[j] == self.signals@[j]@);
            if i < j {
                assert(self.signals@[i].id < self.signals@[j].id);
            } else {
                assert(self.signals@[j].id < self.signals@[i].id);
            }
        }
    }

    /// Takes the next signal id from the counter.
    pub fn next_signal_id(&mut self) -> (id: u64)
        requires
            old(self).signal_counter < u64::MAX,
        ensures
            id == old(self).signal_counter + 1,
            final(self).signal_counter == id,
            final(self).trade_counter == old(self).trade_counter,
            final(self).signals@ == old(self).signals@,
            final(self).provider_stats@ == old(self).provider_stats@,
            final(self).contests == old(self).contests,
            final(self).versions == old(self).versions,
    {
        self.signal_counter = self.signal_counter + 1;
        self.signal_counter
    }

    /// Takes the next trade id from the counter.
    pub fn next_trade_id(&mut self) -> (id: u64)
        requires
            old(self).trade_counter < u64::MAX,
        ensures
            id == old(self).trade_counter + 1,
            final(self).trade_counter == id,
            final(self).signal_counter == old(self).signal_counter,
            final(self).signals@ == old(self).signals@,
            final(self).provider_stats@ == old(self).provider_stats@,
            final(self).contests == old(self).contests,
            final(self).versions == old(self).versions,
    {
        self.trade_counter = self.trade_counter + 1;
        self.trade_counter
    }

    fn find_signal(&self, signal_id: u64) -> (r: Option<usize>)
        requires
            self.wf(),
        ensures
            match r {
                Some(i) => i < self.signals@.len() && self.signals@[i as int].id == signal_id
                    && self.signal_map().contains_key(signal_id) && self.signal_map()[signal_id]
                    == self.signals@[i as int]@,
                None => !self.signal_map().contains_key(signal_id),
            },
    {
        proof {
            self.lemma_signal_keys();
        }
        let mut i: usize = 0;
        while i < self.signals.len()
            invariant
                i <= self.signals@.len(),
                keys_distinct(self.signal_seq(), signal_key()),
                forall|j: int| 0 <= j < i ==> (#[trigger] self.signals@[j]).id != signal_id,
            decreases self.signals@.len() - i,
        {
            if self.signals[i].id == signal_id {
                proof {
                    assert(self.signal_seq()[i as int] == self.signals@[i as int]@);
                    lemma_keyed_at(self.signal_seq(), signal_key(), i as int);
                }
                return Some(i);
            }
            i = i + 1;
        }
        proof {
            assert forall|j: int| 0 <= j < self.signal_seq().len() implies (signal_key())(
                #[trigger] self.signal_seq()[j],
            ) != signal_id by {
                assert(self.signal_seq()[j] == self.signals@[j]@);
            }
            lemma_keyed_absent(self.signal_seq(), signal_key(), signal_id);
        }
        None
    }

    /// The signal with id `signal_id`, if any.
    pub fn get_signal(&self, signal_id: u64) -> (r: Option<&Signal>)
        requires
            self.wf(),
        ensures
            match r {
                Some(s) => self.signal_map().contains_key(signal_id) && s@ == self.signal_map()[signal_id],
                None => !self.signal_map().contains_key(signal_id),
            },
    {
        match self.find_signal(signal_id) {
            Some(i) => Some(&self.signals[i]),
            None => None,
        }
    }

    /// The statistics of `provider`, if any.
    pub fn get_provider_stats(&self, provider: Address) -> (r: Option<ProviderPerformance>)
        requires
            self.wf(),
        ensures
            r == if self.stats_map().contains_key(provider) {
                Some(self.stats_map()[provider])
            } else {
                None
            },
    {
        let mut i: usize = 0;
        while i < self.provider_stats.len()
            invariant
                i <= self.provider_stats@.len(),
                distinct_who(self.provider_stats@, stat_key()),
                forall|j: int| 0 <= j < i ==> (#[trigger] self.provider_stats@[j]).0 != provider,
            decreases self.provider_stats@.len() - i,
        {
            let entry = self.provider_stats[i];
            if entry.0.same(&provider) {
                proof {
                    assert(keys_distinct(self.provider_stats@, stat_key()));
                    lemma_keyed_at(self.provider_stats@, stat_key(), i as int);
                }
                return Some(entry.1);
            }
            i = i + 1;
        }
        proof {
            lemma_keyed_absent(self.provider_stats@, stat_key(), provider);
        }
        None
    }

    /// Same as `get_provider_stats`.
    pub fn get_provider_performance(&self, provider: Address) -> (r: Option<ProviderPerformance>)
        requires
            self.wf(),
        ensures
            r == if self.stats_map().contains_key(provider) {
                Some(self.stats_map()[provider])
            } else {
                None
            },
    {
        self.get_provider_stats(provider)
    }
}

pub open spec fn opt_seq<T>(o: Option<Vec<T>>) -> Option<Seq<T>> {
    match o {
        Some(v) => Some(v@),
        None => None,
    }
}

pub open spec fn opt_strs(o: Option<Vec<String>>) -> Option<Seq<Seq<char>>> {
    match o {
        Some(v) => Some(str_views(v@)),
        None => None,
    }
}

/// A signal belongs in the filtered feed: it is active and unexpired at
/// `now`, and matches each filter that is given (its category is listed,
/// one of its tags is listed, its risk level is listed).
pub open spec fn in_feed(
    s: SignalView,
    categories: Option<Seq<SignalCategory>>,
    tags: Option<Seq<Seq<char>>>,
    risk_levels: Option<Seq<RiskLevel>>,
    now: u64,
) -> bool {
    &&& s.status == SignalStatus::Active
    &&& s.expiry > now
    &&& (categories matches Some(c) ==> c.contains(s.category))
    &&& (tags matches Some(t) ==> share_an_item(t, s.tags))
    &&& (risk_levels matches Some(r) ==> r.contains(s.risk_level))
}

/// Some item is in both `a` and `b`.
pub open spec fn share_an_item(a: Seq<Seq<char>>, b: Seq<Seq<char>>) -> bool {
    exists|x: Seq<char>| a.contains(x) && b.contains(x)
}

pub open spec fn feed_filter(
    categories: Option<Seq<SignalCategory>>,
    tags: Option<Seq<Seq<char>>>,
    risk_levels: Option<Seq<RiskLevel>>,
    now: u64,
) -> spec_fn(SignalView) -> bool {
    |s: SignalView| in_feed(s, categories, tags, risk_levels, now)
}

/// The page of `s` that starts at `offset` and holds at most `limit` items.
pub open spec fn page<T>(s: Seq<T>, offset: u32, limit: u32) -> Seq<T> {
    let total = s.len() as int;
    let start = if offset < total {
        offset as int
    } else {
        total
    };
    let end = if offset + limit < total {
        offset + limit
    } else {
        total
    };
    s.subrange(start, end)
}

fn category_listed(cats: &Vec<SignalCategory>, c: SignalCategory) -> (r: bool)
    ensures
        r == cats@.contains(c),
{
    let mut i: usize = 0;
    while i < cats.len()
        invariant
            i <= cats@.len(),
            forall|j: int| 0 <= j < i ==> cats@[j] != c,
        decreases cats@.len() - i,
    {
        if cats[i] == c {
            return true;
        }
        i = i + 1;
    }
    false
}

fn risk_listed(risks: &Vec<RiskLevel>, r0: RiskLevel) -> (r: bool)
    ensures
        r == risks@.contains(r0),
{
    let mut i: usize = 0;
    while i < risks.len()
        invariant
            i <= risks@.len(),
            forall|j: int| 0 <= j < i ==> risks@[j] != r0,
        decreases risks@.len() - i,
    {
        if risks[i] == r0 {
            return true;
        }
        i = i + 1;
    }
    false
}

/// Some tag of `signal_tags` is listed in `filter`.
fn shares_tag(signal_tags: &Vec<String>, filter: &Vec<String>) -> (r: bool)
    ensures
        r == share_an_item(str_views(filter@), str_views(signal_tags@)),
{
    let ghost fv = str_views(filter@);
    let ghost tv = str_views(signal_tags@);
    let mut j: usize = 0;
    while j < filter.len()
        invariant
            fv == str_views(filter@),
            tv == str_views(signal_tags@),
            j <= filter@.len(),
            forall|a: int, b: int| 0 <= a < j && 0 <= b < tv.len() ==> #[trigger] fv[a] != #[trigger] tv[b],
        decreases filter@.len() - j,
    {
        let mut k: usize = 0;
        while k < signal_tags.len()
            invariant
                fv == str_views(filter@),
                tv == str_views(signal_tags@),
                j < filter@.len(),
                k <= signal_tags@.len(),
                forall|a: int, b: int| 0 <= a < j && 0 <= b < tv.len() ==> #[trigger] fv[a] != #[trigger] tv[b],
                forall|b: int| 0 <= b < k ==> fv[j as int] != #[trigger] tv[b],
            decreases signal_tags@.len() - k,
        {
            if signal_tags[k] == filter[j] {
                proof {
                    assert(fv.contains(fv[j as int]));
                    assert(tv[k as int] == fv[j as int]);
                    assert(tv.contains(fv[j as int]));
                }
                return true;
            }
            k = k + 1;
        }
        j = j + 1;
    }
    proof {
        assert forall|x: Seq<char>| !(fv.contains(x) && tv.contains(x)) by {
            if fv.contains(x) && tv.contains(x) {
                let a = choose|a: int| 0 <= a < fv.len() && fv[a] == x;
                let b = choose|b: int| 0 <= b < tv.len() && tv[b] == x;
                assert(fv[a] != tv[b]);
            }
        }
    }
    false
}

/// A copy of `s`.
fn copy_signal(s: &Signal) -> (r: Signal)
    ensures
        r@ == s@,
{
    let tags = s.tags.clone();
    proof {
        assert forall|i: int| 0 <= i < tags@.len() implies tags@[i]@ == s.tags@[i]@ by {
            assert(vstd::pervasive::cloned::<String>(s.tags@[i], tags@[i]));
        }
        assert(str_views(tags@) =~= str_views(s.tags@));
    }
    let r = Signal {
        id: s.id,
        provider: s.provider,
        asset_pair: s.asset_pair.clone(),
        action: s.action,
        price: s.price,
        rationale: s.rationale.clone(),
        timestamp: s.timestamp,
        expiry: s.expiry,
        status: s.status,
        executions: s.executions,
        successful_executions: s.successful_executions,
        total_volume: s.total_volume,
        total_roi: s.total_roi,
        category: s.category,
        tags,
        risk_level: s.risk_level,
        is_collaborative: s.is_collaborative,
    };
    proof {
        assert(r@.tags =~= s@.tags);
    }
    r
}

/// Ranks provider statistics by success rate, highest first, ties by
/// provider address.
fn rank_stats(stats: &Vec<(Address, ProviderPerformance)>) -> (r: Vec<(Address, ProviderPerformance)>)
    requires
        distinct_who(stats@, stat_key()),
    ensures
        ranks(r@, listed(stats@), stat_score(), stat_key()),
{
    let mut r: Vec<(Address, ProviderPerformance)> = Vec::new();
    let mut i: usize = 0;
    while i < stats.len()
        invariant
            distinct_who(stats@, stat_key()),
            i <= stats@.len(),
            strictly_ranked(r@, stat_score(), stat_key()),
            forall|x: (Address, ProviderPerformance)|
                #![trigger r@.contains(x)]
                r@.contains(x) <==> stats@.take(i as int).contains(x),
        decreases stats@.len() - i,
    {
        let ghost rv = r@;
        let ghost pre = stats@.take(i as int);
        let ghost n: int = i + 1;
        let ghost post = stats@.take(n);
        let x = stats[i];
        proof {
            assert forall|y: (Address, ProviderPerformance)| #![trigger post.contains(y)]
                post.contains(y) <==> (pre.contains(y) || y == x) by {
                if post.contains(y) {
                    let k = choose|k: int| 0 <= k < post.len() && post[k] == y;
                    if k < i {
                        assert(pre[k] == y);
                    }
                }
                if pre.contains(y) {
                    let k = choose|k: int| 0 <= k < pre.len() && pre[k] == y;
                    assert(post[k] == y);
                }
                if y == x {
                    assert(post[i as int] == y);
                }
            }
        }
        let mut p: usize = 0;
        while p < r.len() && !(x.1.success_rate > r[p].1.success_rate || (x.1.success_rate
            == r[p].1.success_rate && x.0.before(&r[p].0)))
            invariant
                rv == r@,
                p <= r@.len(),
                i < stats@.len(),
                x == stats@[i as int],
                distinct_who(stats@, stat_key()),
                pre == stats@.take(i as int),
                forall|y: (Address, ProviderPerformance)| #![trigger rv.contains(y)] rv.contains(y) ==> pre.contains(y),
                forall|q: int| 0 <= q < p ==> ranks_before(#[trigger] rv[q], x, stat_score(), stat_key()),
            decreases r@.len() - p,
        {
            proof {
                assert(rv.contains(rv[p as int]));
                assert(pre.contains(rv[p as int]));
                let k = choose|k: int| 0 <= k < pre.len() && pre[k] == rv[p as int];
                assert(stats@[k] == rv[p as int]);
                lemma_ranks_before_order(rv[p as int], x, rv[p as int], stat_score(), stat_key());
            }
            p = p + 1;
        }
        proof {
            lemma_insert_ranked(rv, p as int, x, stat_score(), stat_key());
        }
        r.insert(p, x);
        proof {
            assert forall|y: (Address, ProviderPerformance)| #![trigger r@.contains(y)]
                r@.contains(y) <==> post.contains(y) by {
                assert(post.contains(y) <==> (pre.contains(y) || y == x));
            }
        }
        i = i + 1;
    }
    proof {
        assert(stats@.take(stats@.len() as int) =~= stats@);
        assert forall|y: (Address, ProviderPerformance)| r@.contains(y) <==> listed(stats@).contains(y) by {}
    }
    r
}

/// The first `min(limit, len)` items of `s`.
pub open spec fn top<T>(s: Seq<T>, limit: u32) -> Seq<T> {
    if (limit as int) < s.len() {
        s.take(limit as int)
    } else {
        s
    }
}

impl SignalRegistry {
    /// The `limit` providers with the highest success rate, best first; ties
    /// go by provider address.
    pub fn get_top_providers(&self, limit: u32) -> (r: Vec<(Address, ProviderPerformance)>)
        requires
            self.wf(),
        ensures
            r@ == top(ranking(listed(self.provider_stats@), stat_score(), stat_key()), limit),
    {
        let ranked = rank_stats(&self.provider_stats);
        proof {
            lemma_ranking_is(ranked@, listed(self.provider_stats@), stat_score(), stat_key());
        }
        let n: usize = if (limit as usize) < ranked.len() {
            limit as usize
        } else {
            ranked.len()
        };
        let mut result: Vec<(Address, ProviderPerformance)> = Vec::new();
        let mut i: usize = 0;
        while i < n
            invariant
                n <= ranked@.len(),
                i <= n,
                result@ == ranked@.take(i as int),
            decreases n - i,
        {
            result.push(ranked[i]);
            proof {
                assert(result@ =~= ranked@.take(i + 1));
            }
            i = i + 1;
        }
        proof {
            assert(result@ =~= top(ranked@, limit));
        }
        result
    }

    /// The active, unexpired signals at ledger time `now` that match the given
    /// category, tag and risk filters, in id order, paginated.
    pub fn get_signals_filtered(
        &self,
        categories: Option<Vec<SignalCategory>>,
        tags: Option<Vec<String>>,
        risk_levels: Option<Vec<RiskLevel>>,
        offset: u32,
        limit: u32,
        now: u64,
    ) -> (r: Vec<Signal>)
        requires
            self.wf(),
            offset + limit <= u32::MAX,
        ensures
            signal_views(r@) == page(
                self.signal_seq().filter(
                    feed_filter(opt_seq(categories), opt_strs(tags), opt_seq(risk_levels), now),
                ),
                offset,
                limit,
            ),
    {
        let ghost pred = feed_filter(opt_seq(categories), opt_strs(tags), opt_seq(risk_levels), now);
        let ghost sv = self.signal_seq();
        let mut filtered: Vec<usize> = Vec::new();
        let mut i: usize = 0;
        while i < self.signals.len()
            invariant
                sv == self.signal_seq(),
                pred == feed_filter(opt_seq(categories), opt_strs(tags), opt_seq(risk_levels), now),
                i <= self.signals@.len(),
                Seq::new(filtered@.len(), |k: int| sv[filtered@[k] as int]) == sv.take(i as int).filter(pred),
                forall|k: int| 0 <= k < filtered@.len() ==> #[trigger] filtered@[k] < i,
            decreases self.signals@.len() - i,
        {
            let s = &self.signals[i];
            let active = s.status == SignalStatus::Active && s.expiry > now;
            let category_ok = match &categories {
                Some(cats) => category_listed(cats, s.category),
                None => true,
            };
            let tag_ok = match &tags {
                Some(t) => shares_tag(&s.tags, t),
                None => true,
            };
            let risk_ok = match &risk_levels {
                Some(risks) => risk_listed(risks, s.risk_level),
                None => true,
            };
            proof {
                assert(category_ok == (opt_seq(categories) matches Some(c) ==> c.contains(s@.category)));
                assert(risk_ok == (opt_seq(risk_levels) matches Some(c) ==> c.contains(s@.risk_level)));
                assert(s@.tags =~= str_views(s.tags@));
                assert(tag_ok == (opt_strs(tags) matches Some(t) ==> share_an_item(t, s@.tags)));
            }
            let keep = active && category_ok && tag_ok && risk_ok;
            let ghost before = Seq::new(filtered@.len(), |k: int| sv[filtered@[k] as int]);
            proof {
                assert(sv[i as int] == s@);
                assert(s@.tags == str_views(s.tags@));
                assert(keep == in_feed(s@, opt_seq(categories), opt_strs(tags), opt_seq(risk_levels), now));
                assert(keep == pred(sv[i as int]));
                let ghost n: int = i + 1;
                assert(sv.take(n).drop_last() =~= sv.take(i as int));
                assert(sv.take(n).last() == sv[i as int]);
                reveal_with_fuel(Seq::<_>::filter, 1);
            }
            if keep {
                filtered.push(i);
                proof {
                    assert(Seq::new(filtered@.len(), |k: int| sv[filtered@[k] as int]) =~= before.push(sv[i as int]));
                }
            } else {
                proof {
                    assert(Seq::new(filtered@.len(), |k: int| sv[filtered@[k] as int]) =~= before);
                }
            }
            i = i + 1;
        }
        let ghost feed = Seq::new(filtered@.len(), |k: int| sv[filtered@[k] as int]);
        proof {
            assert(sv.take(self.signals@.len() as int) =~= sv);
        }
        let total = filtered.len();
        let start: usize = if (offset as usize) < total {
            offset as usize
        } else {
            total
        };
        let end: usize = if ((offset + limit) as usize) < total {
            (offset + limit) as usize
        } else {
            total
        };
        let mut result: Vec<Signal> = Vec::new();
        let mut j: usize = start;
        while j < end
            invariant
                sv == self.signal_seq(),
                feed == Seq::new(filtered@.len(), |k: int| sv[filtered@[k] as int]),
                forall|k: int| 0 <= k < filtered@.len() ==> #[trigger] filtered@[k] < self.signals@.len(),
                start <= j <= end,
                end <= filtered@.len(),
                signal_views(result@) == feed.subrange(start as int, j as int),
            decreases end - j,
        {
            let idx = filtered[j];
            let c = copy_signal(&self.signals[idx]);
            let ghost old_result = result@;
            result.push(c);
            proof {
                assert(sv[idx as int] == self.signals@[idx as int]@);
                assert(feed[j as int] == sv[idx as int]);
                assert(signal_views(result@) =~= signal_views(old_result).push(c@));
                assert(signal_views(result@) =~= feed.subrange(start as int, j + 1));
            }
            j = j + 1;
        }
        result
    }
}

impl SignalRegistry {
    /// Revises signal `signal_id` on behalf of `updater` at ledger time `now`
    /// (see `versioning::update_signal`).  A refused revision changes
    /// nothing, as a failed contract call leaves the ledger as it was; an
    /// accepted one archives the old state and stores the revised signal.
    pub fn update_signal(
        &mut self,
        signal_id: u64,
        updater: Address,
        new_price: Option<i128>,
        new_rationale: Option<String>,
        new_expiry: Option<u64>,
        now: u64,
    ) -> (r: Result<u32, VersioningError>)
        requires
            old(self).wf(),
            old(self).signal_map().contains_key(signal_id) && old(self).signal_map()[signal_id].provider == updater
                && old(self).signal_map()[signal_id].status == SignalStatus::Active
                && old(self).versions.count_of(signal_id) < versioning::MAX_UPDATES_PER_SIGNAL
                ==> old(self).versions.last_update_of(signal_id) + versioning::UPDATE_COOLDOWN_SECONDS <= u64::MAX,
        ensures
            final(self).wf(),
            final(self).signal_counter == old(self).signal_counter,
            final(self).trade_counter == old(self).trade_counter,
            final(self).provider_stats@ == old(self).provider_stats@,
            final(self).contests == old(self).contests,
            !old(self).signal_map().contains_key(signal_id) ==> {
                &&& r == Err::<u32, VersioningError>(VersioningError::VersionNotFound)
                &&& *final(self) == *old(self)
            },
            old(self).signal_map().contains_key(signal_id) ==> {
                let sig = old(self).signal_map()[signal_id];
                match versioning::update_error(old(self).versions, signal_id, updater, new_price, new_expiry, sig, now) {
                    Some(e) => r == Err::<u32, VersioningError>(e) && *final(self) == *old(self),
                    None => {
                        &&& versioning::update_outcome(
                            old(self).versions,
                            final(self).versions,
                            signal_id,
                            updater,
                            new_price,
                            versioning::rationale_text(new_rationale),
                            new_expiry,
                            sig,
                            now,
                            r,
                        )
                        &&& final(self).signal_map() == old(self).signal_map().insert(
                            signal_id,
                            versioning::revised(sig, new_price, versioning::rationale_text(new_rationale), new_expiry),
                        )
                    },
                }
            },
    {
        let i = match self.find_signal(signal_id) {
            Some(i) => i,
            None => {
                return Err(VersioningError::VersionNotFound);
            },
        };
        match versioning::update_refused(&self.versions, signal_id, &updater, &self.signals[i], now) {
            Some(e) => {
                return Err(e);
            },
            None => {},
        }
        if let Some(p) = new_price {
            if p <= 0 {
                return Err(VersioningError::InvalidPrice);
            }
        }
        if let Some(e) = new_expiry {
            if e <= now {
                return Err(VersioningError::InvalidExpiry);
            }
        }
        let mut working = copy_signal(&self.signals[i]);
        let ghost sv0 = self.signal_seq();
        let ghost before = *self;
        let version = versioning::update_signal(
            &mut self.versions,
            signal_id,
            &updater,
            new_price,
            new_rationale,
            new_expiry,
            &mut working,
            now,
        )?;
        let ghost wv = working@;
        self.signals.set(i, working);
        proof {
            before.lemma_signal_keys();
            assert(self.signal_seq() =~= sv0.update(i as int, wv));
            crate::keyed::lemma_keyed_update(sv0, signal_key(), i as int, wv);
            assert forall|a: int, b: int| 0 <= a < b < self.signals@.len() implies (
            #[trigger] self.signals@[a]).id < (#[trigger] self.signals@[b]).id by {
                assert(before.signals@[a].id < before.signals@[b].id);
            }
            assert forall|a: int| 0 <= a < self.signals@.len() implies (
            #[trigger] self.signals@[a]).id <= self.signal_counter by {
                assert(before.signals@[a].id <= before.signal_counter);
            }
        }
        Ok(version)
    }

    /// The archived versions of signal `signal_id`, oldest first.
    pub fn get_signal_history(&self, signal_id: u64) -> (r: Vec<SignalVersion>)
        requires
            self.wf(),
        ensures
            versioning::version_views(r@) == versioning::history_upto(
                self.versions.version_map(),
                signal_id,
                self.versions.latest_of(signal_id) as nat,
            ),
    {
        versioning::get_signal_history(&self.versions, signal_id)
    }

    /// Records that `user` copied signal `signal_id`, at its latest version,
    /// at ledger time `now`.
    pub fn record_signal_copy(&mut self, user: Address, signal_id: u64, now: u64)
        requires
            old(self).wf(),
        ensures
            final(self).wf(),
            final(self).versions.copy_map() == old(self).versions.copy_map().insert(
                (user, signal_id),
                versioning::CopyRecordView {
                    user,
                    signal_id,
                    version: old(self).versions.latest_of(signal_id),
                    copied_at: now,
                    notified_of_updates: Seq::empty(),
                },
            ),
            final(self).versions.tracks@ == old(self).versions.tracks@,
            final(self).versions.versions@ == old(self).versions.versions@,
            final(self).signals@ == old(self).signals@,
            final(self).provider_stats@ == old(self).provider_stats@,
            final(self).contests == old(self).contests,
            final(self).signal_counter == old(self).signal_counter,
            final(self).trade_counter == old(self).trade_counter,
    {
        let version = versioning::get_latest_version(&self.versions, signal_id);
        versioning::record_copy(&mut self.versions, &user, signal_id, version, now);
    }

    /// Versions of signal `signal_id` newer than `user`'s copy that `user`
    /// has not been told of.
    pub fn get_pending_updates(&self, user: Address, signal_id: u64) -> (r: Vec<u32>)
        requires
            self.wf(),
            self.versions.copy_map().contains_key((user, signal_id)) ==> self.versions.copy_map()[(
                user,
                signal_id,
            )].version < u32::MAX,
        ensures
            r@ == if self.versions.copy_map().contains_key((user, signal_id)) {
                versioning::pending_of(
                    self.versions.copy_map()[(user, signal_id)],
                    self.versions.latest_of(signal_id),
                )
            } else {
                Seq::empty()
            },
    {
        versioning::get_pending_updates(&self.versions, &user, signal_id)
    }

    /// The record of `user`'s copy of signal `signal_id`, if any.
    pub fn get_copy_record(&self, user: Address, signal_id: u64) -> (r: Option<&CopyRecord>)
        requires
            self.wf(),
        ensures
            match r {
                Some(c) => self.versions.copy_map().contains_key((user, signal_id)) && c@
                    == self.versions.copy_map()[(user, signal_id)],
                None => !self.versions.copy_map().contains_key((user, signal_id)),
            },
    {
        versioning::get_copy_record(&self.versions, &user, signal_id)
    }

    /// Notes that `user` was told of version `version` of signal `signal_id`.
    pub fn mark_update_notified(&mut self, user: Address, signal_id: u64, version: u32)
        requires
            old(self).wf(),
        ensures
            final(self).wf(),
            final(self).versions.copy_map() == if old(self).versions.copy_map().contains_key((user, signal_id))
                && !old(self).versions.copy_map()[(user, signal_id)].notified_of_updates.contains(version) {
                old(self).versions.copy_map().insert(
                    (user, signal_id),
                    versioning::CopyRecordView {
                        notified_of_updates: old(self).versions.copy_map()[(
                            user,
                            signal_id,
                        )].notified_of_updates.push(version),
                        ..old(self).versions.copy_map()[(user, signal_id)]
                    },
                )
            } else {
                old(self).versions.copy_map()
            },
            final(self).versions.tracks@ == old(self).versions.tracks@,
            final(self).versions.versions@ == old(self).versions.versions@,
            final(self).signals@ == old(self).signals@,
            final(self).provider_stats@ == old(self).provider_stats@,
            final(self).contests == old(self).contests,
            final(self).signal_counter == old(self).signal_counter,
            final(self).trade_counter == old(self).trade_counter,
    {
        versioning::mark_notified(&mut self.versions, &user, signal_id, version);
    }
}

impl SignalRegistry {
    /// Opens a contest (see `contests::create_contest`).
    pub fn create_contest(
        &mut self,
        name: String,
        start_time: u64,
        end_time: u64,
        metric: ContestMetric,
        min_signals: u32,
        prize_pool: i128,
        now: u64,
    ) -> (r: Result<u64, ContestError>)
        requires
            old(self).wf(),
            start_time < end_time && now < end_time && prize_pool >= 0 ==> old(self).contests.counter
                < u64::MAX,
        ensures
            final(self).wf(),
            contests::contest_created(
                old(self).contests,
                final(self).contests,
                name@,
                start_time,
                end_time,
                metric,
                min_signals,
                prize_pool,
                now,
                r,
            ),
            final(self).signals@ == old(self).signals@,
            final(self).provider_stats@ == old(self).provider_stats@,
            final(self).versions == old(self).versions,
            final(self).signal_counter == old(self).signal_counter,
            final(self).trade_counter == old(self).trade_counter,
    {
        contests::create_contest(
            &mut self.contests,
            name,
            start_time,
            end_time,
            metric,
            min_signals,
            prize_pool,
            now,
        )
    }

    /// Closes a contest and allots its prizes (see `contests::finalize_contest`).
    pub fn finalize_contest(&mut self, contest_id: u64, now: u64) -> (r: Result<Vec<Address>, ContestError>)
        requires
            old(self).wf(),
            contests::finalize_proceeds(old(self).contests.contest_map(), contest_id, now)
                && contests::contest_winners(old(self).contests.contest_map()[contest_id]).len() > 0
                ==> old(self).contests.contest_map()[contest_id].prize_pool * 50 <= i128::MAX,
        ensures
            final(self).wf(),
            contests::contest_closed(old(self).contests, final(self).contests, contest_id, now, r),
            final(self).signals@ == old(self).signals@,
            final(self).provider_stats@ == old(self).provider_stats@,
            final(self).versions == old(self).versions,
            final(self).signal_counter == old(self).signal_counter,
            final(self).trade_counter == old(self).trade_counter,
    {
        contests::finalize_contest(&mut self.contests, contest_id, now)
    }

    /// The contest with id `contest_id`.
    pub fn get_contest(&self, contest_id: u64) -> (r: Result<&Contest, ContestError>)
        requires
            self.wf(),
        ensures
            match r {
                Ok(c) => self.contests.contest_map().contains_key(contest_id) && c@
                    == self.contests.contest_map()[contest_id],
                Err(e) => !self.contests.contest_map().contains_key(contest_id) && e
                    == ContestError::ContestNotFound,
            },
    {
        contests::get_contest(&self.contests, contest_id)
    }

    /// Ids of the contests still running.
    pub fn get_active_contests(&self) -> (r: &Vec<u64>)
        ensures
            r@ == self.contests.active@,
    {
        contests::get_active_contests(&self.contests)
    }

    /// A contest's entries, best first.
    pub fn get_contest_leaderboard(&self, contest_id: u64) -> (r: Result<Vec<ContestEntry>, ContestError>)
        requires
            self.wf(),
        ensures
            match r {
                Ok(v) => self.contests.contest_map().contains_key(contest_id) && contests::entry_views(v@)
                    == ranking(
                    self.contests.contest_map()[contest_id].entries.values(),
                    contests::entry_score(),
                    contests::entry_who(),
                ),
                Err(e) => !self.contests.contest_map().contains_key(contest_id) && e
                    == ContestError::ContestNotFound,
            },
    {
        contests::get_contest_leaderboard(&self.contests, contest_id)
    }

    /// The prize allotted to `provider` in contest `contest_id` (0 if none).
    pub fn get_provider_prize(&self, contest_id: u64, provider: Address) -> (r: i128)
        requires
            self.wf(),
        ensures
            r == if self.contests.prize_map().contains_key((contest_id, provider)) {
                self.contests.prize_map()[(contest_id, provider)]
            } else {
                0
            },
    {
        contests::get_provider_prize(&self.contests, contest_id, provider)
    }
}

/// Longest time a signal may stay open, in seconds (30 days).
pub const MAX_EXPIRY_SECONDS: u64 = 30 * 24 * 60 * 60;

/// The registry's verdict on an asset pair, given the outcome of the
/// asset-pair validation: any failure is an invalid asset pair.
pub fn validate_asset_pair(check: Result<(), AssetPairError>) -> (r: Result<(), AdminError>)
    ensures
        r == if check is Ok {
            Ok::<(), AdminError>(())
        } else {
            Err::<(), AdminError>(AdminError::InvalidAssetPair)
        },
{
    match check {
        Ok(()) => Ok(()),
        Err(AssetPairError::InvalidFormat) | Err(AssetPairError::InvalidAssetCode) | Err(
            AssetPairError::InvalidIssuer,
        ) | Err(AssetPairError::SameAssets) => Err(AdminError::InvalidAssetPair),
    }
}

/// A newly published signal.
pub open spec fn published(
    id: u64,
    provider: Address,
    asset_pair: Seq<char>,
    action: SignalAction,
    price: i128,
    rationale: Seq<char>,
    expiry: u64,
    category: SignalCategory,
    tags: Seq<Seq<char>>,
    risk_level: RiskLevel,
    now: u64,
) -> SignalView {
    SignalView {
        id,
        provider,
        asset_pair,
        action,
        price,
        rationale,
        timestamp: now,
        expiry,
        status: SignalStatus::Active,
        executions: 0,
        successful_executions: 0,
        total_volume: 0,
        total_roi: 0,
        category,
        tags,
        risk_level,
        is_collaborative: false,
    }
}

/// Statistics of a provider with no finished signals.
pub open spec fn no_performance() -> ProviderPerformance {
    ProviderPerformance { success_rate: 0, avg_return: 0, total_volume: 0 }
}

impl SignalRegistry {
    /// Publishes a signal at ledger time `now`.  `checks` is the outcome of
    /// the trading-pause, asset-pair and tag checks that precede
    /// publication; the signal keeps each of `tags` where it first occurs.
    /// The signal gets the next id, is entered into every running contest,
    /// and its provider gets empty statistics on a first signal.
    pub fn create_signal(
        &mut self,
        provider: Address,
        asset_pair: String,
        action: SignalAction,
        price: i128,
        rationale: String,
        expiry: u64,
        category: SignalCategory,
        tags: Vec<String>,
        risk_level: RiskLevel,
        now: u64,
        checks: Result<(), AdminError>,
    ) -> (r: Result<u64, AdminError>)
        requires
            old(self).wf(),
            checks is Ok ==> now + MAX_EXPIRY_SECONDS <= u64::MAX && now < expiry && expiry <= now
                + MAX_EXPIRY_SECONDS,
            checks is Ok ==> old(self).signal_counter < u64::MAX,
            checks is Ok ==> forall|id: u64|
                #![trigger old(self).contests.contest_map()[id]]
                old(self).contests.contest_map().contains_key(id) && old(self).contests.active@.contains(id)
                    && contests::accepts_entries(old(self).contests.contest_map()[id], now)
                    ==> contests::can_count(
                    old(self).contests.contest_map()[id],
                    published((old(self).signal_counter + 1) as u64, provider, asset_pair@, action, price,
                        rationale@, expiry, category, without_repeats(str_views(tags@)), risk_level, now),
                ),
        ensures
            final(self).wf(),
            checks is Err ==> r == Err::<u64, AdminError>(checks->Err_0) && *final(self) == *old(self),
            checks is Ok ==> {
                let id = (old(self).signal_counter + 1) as u64;
                let sig = published(id, provider, asset_pair@, action, price, rationale@, expiry,
                    category, without_repeats(str_views(tags@)), risk_level, now);
                &&& r == Ok::<u64, AdminError>(id)
                &&& final(self).signal_counter == id
                &&& final(self).signal_map() == old(self).signal_map().insert(id, sig)
                &&& final(self).contests.contest_map() == contests::contests_after_signal(
                    old(self).contests.contest_map(),
                    old(self).contests.active@,
                    sig,
                    now,
                )
                &&& final(self).contests.active@ == old(self).contests.active@
                &&& final(self).contests.prizes@ == old(self).contests.prizes@
                &&& final(self).contests.counter == old(self).contests.counter
                &&& final(self).stats_map() == if old(self).stats_map().contains_key(provider) {
                    old(self).stats_map()
                } else {
                    old(self).stats_map().insert(provider, no_performance())
                }
                &&& final(self).versions == old(self).versions
                &&& final(self).trade_counter == old(self).trade_counter
            },
    {
        match checks {
            Err(e) => {
                return Err(e);
            },
            Ok(()) => {},
        }
        let unique_tags = deduplicate_tags(&tags);
        let ghost before = *self;
        let id = self.next_signal_id();
        let signal = Signal {
            id,
            provider,
            asset_pair,
            action,
            price,
            rationale,
            timestamp: now,
            expiry,
            status: SignalStatus::Active,
            executions: 0,
            successful_executions: 0,
            total_volume: 0,
            total_roi: 0,
            category,
            tags: unique_tags,
            risk_level,
            is_collaborative: false,
        };
        let ghost sig = signal@;
        proof {
            assert(sig.tags =~= str_views(signal.tags@));
        }
        let _ = contests::auto_enter_signal(&mut self.contests, &signal, now);
        proof {
            before.lemma_signal_keys();
            assert forall|j: int| 0 <= j < self.signal_seq().len() implies (signal_key())(
                #[trigger] self.signal_seq()[j],
            ) != id by {
                assert(self.signal_seq()[j] == self.signals@[j]@);
            }
            lemma_keyed_absent(self.signal_seq(), signal_key(), id);
        }
        let ghost sv0 = self.signal_seq();
        self.signals.push(signal);
        proof {
            assert(self.signal_seq() =~= sv0.push(sig));
            crate::keyed::lemma_keyed_push(sv0, signal_key(), sig);
            assert forall|a: int, b: int| 0 <= a < b < self.signals@.len() implies (
            #[trigger] self.signals@[a]).id < (#[trigger] self.signals@[b]).id by {
                if b < self.signals@.len() - 1 {
                    assert(before.signals@[a].id < before.signals@[b].id);
                } else {
                    assert(before.signals@[a].id <= before.signal_counter);
                }
            }
            assert forall|a: int| 0 <= a < self.signals@.len() implies (
            #[trigger] self.signals@[a]).id <= self.signal_counter by {
                if a < self.signals@.len() - 1 {
                    assert(before.signals@[a].id <= before.signal_counter);
                }
            }
        }
        match self.get_provider_stats(provider) {
            Some(_) => {},
            None => {
                let ghost st0 = self.provider_stats@;
                proof {
                    assert forall|j: int| 0 <= j < st0.len() implies (stat_key())(#[trigger] st0[j]) != provider by {
                        if (stat_key())(st0[j]) == provider {
                            assert(keys_distinct(st0, stat_key()));
                            lemma_keyed_at(st0, stat_key(), j);
                        }
                    }
                    lemma_keyed_absent(st0, stat_key(), provider);
                }
                let fresh = ProviderPerformance { success_rate: 0, avg_return: 0, total_volume: 0 };
                self.provider_stats.push((provider, fresh));
                proof {
                    crate::keyed::lemma_keyed_push(st0, stat_key(), (provider, fresh));
                    assert(self.stats_map() =~= before.stats_map().insert(provider, no_performance()));
                }
            },
        }
        Ok(id)
    }
}


/// Most tags a signal may carry.
pub const MAX_TAGS_PER_SIGNAL: usize = 10;

/// `tags` with every tag kept only where it first occurs.
pub open spec fn without_repeats(tags: Seq<Seq<char>>) -> Seq<Seq<char>>
    decreases tags.len(),
{
    if tags.len() == 0 {
        Seq::empty()
    } else {
        let rest = without_repeats(tags.drop_last());
        if tags.drop_last().contains(tags.last()) {
            rest
        } else {
            rest.push(tags.last())
        }
    }
}

/// The tags in order, each kept only where it first occurs.
pub fn deduplicate_tags(tags: &Vec<String>) -> (r: Vec<String>)
    ensures
        str_views(r@) == without_repeats(str_views(tags@)),
{
    let mut out: Vec<String> = Vec::new();
    let mut i: usize = 0;
    while i < tags.len()
        invariant
            i <= tags@.len(),
            str_views(out@) == without_repeats(str_views(tags@.take(i as int))),
        decreases tags@.len() - i,
    {
        let mut seen = false;
        let mut j: usize = 0;
        while j < i
            invariant
                j <= i < tags@.len(),
                seen == exists|k: int| 0 <= k < j && (#[trigger] tags@[k])@ == tags@[i as int]@,
            decreases i - j,
        {
            if tags[j] == tags[i] {
                seen = true;
            }
            j = j + 1;
        }
        let ghost pre = str_views(tags@.take(i + 1));
        proof {
            assert(pre.drop_last() =~= str_views(tags@.take(i as int)));
            assert(pre.last() == tags@[i as int]@);
            if seen {
                let k = choose|k: int| 0 <= k < i && (#[trigger] tags@[k])@ == tags@[i as int]@;
                assert(pre.drop_last()[k] == tags@[k]@);
            }
            if pre.drop_last().contains(pre.last()) {
                let k = choose|k: int| 0 <= k < pre.drop_last().len() && pre.drop_last()[k] == pre.last();
                assert(tags@[k]@ == tags@[i as int]@);
            }
        }
        if !seen {
            let t = tags[i].clone();
            out.push(t);
            proof {
                assert(str_views(out@) =~= without_repeats(pre.drop_last()).push(tags@[i as int]@));
            }
        }
        i = i + 1;
    }
    proof {
        assert(tags@.take(tags@.len() as int) =~= tags@);
    }
    out
}

impl SignalRegistry {
    /// Adds `tags` to signal `signal_id` on behalf of `provider`.
    /// `tag_check` is the outcome of validating the new tags.  The signal
    /// must exist and belong to the provider, and may carry at most ten
    /// tags counting the new ones; its tags become its old tags followed by
    /// the new ones, each kept only where it first occurs.
    pub fn add_tags_to_signal(
        &mut self,
        provider: Address,
        signal_id: u64,
        tags: Vec<String>,
        tag_check: Result<(), AdminError>,
    ) -> (r: Result<(), AdminError>)
        requires
            old(self).wf(),
        ensures
            final(self).wf(),
            final(self).signal_counter == old(self).signal_counter,
            final(self).trade_counter == old(self).trade_counter,
            final(self).provider_stats@ == old(self).provider_stats@,
            final(self).contests == old(self).contests,
            final(self).versions == old(self).versions,
            ({
                let m = old(self).signal_map();
                let sig = m[signal_id];
                if !m.contains_key(signal_id) {
                    r == Err::<(), AdminError>(AdminError::InvalidParameter) && final(self).signal_map() == m
                } else if sig.provider != provider {
                    r == Err::<(), AdminError>(AdminError::Unauthorized) && final(self).signal_map() == m
                } else if tag_check is Err {
                    r == Err::<(), AdminError>(tag_check->Err_0) && final(self).signal_map() == m
                } else if sig.tags.len() + tags@.len() > MAX_TAGS_PER_SIGNAL {
                    r == Err::<(), AdminError>(AdminError::InvalidParameter) && final(self).signal_map() == m
                } else {
                    r is Ok && final(self).signal_map() == m.insert(
                        signal_id,
                        SignalView { tags: without_repeats(sig.tags + str_views(tags@)), ..sig },
                    )
                }
            }),
    {
        let i = match self.find_signal(signal_id) {
            Some(i) => i,
            None => {
                return Err(AdminError::InvalidParameter);
            },
        };
        if !self.signals[i].provider.same(&provider) {
            return Err(AdminError::Unauthorized);
        }
        match tag_check {
            Err(e) => {
                return Err(e);
            },
            Ok(()) => {},
        }
        if tags.len() > MAX_TAGS_PER_SIGNAL || self.signals[i].tags.len() > MAX_TAGS_PER_SIGNAL - tags.len() {
            return Err(AdminError::InvalidParameter);
        }
        let mut working = copy_signal(&self.signals[i]);
        let mut combined = working.tags.clone();
        let mut k: usize = 0;
        while k < tags.len()
            invariant
                k <= tags@.len(),
                str_views(combined@) == working@.tags + str_views(tags@.take(k as int)),
            decreases tags@.len() - k,
        {
            let ghost prev = str_views(combined@);
            let t = tags[k].clone();
            combined.push(t);
            proof {
                assert(str_views(combined@) =~= prev.push(tags@[k as int]@));
                assert(str_views(tags@.take(k + 1)) =~= str_views(tags@.take(k as int)).push(tags@[k as int]@));
                assert(str_views(combined@) =~= working@.tags + str_views(tags@.take(k + 1)));
            }
            k = k + 1;
        }
        proof {
            assert(tags@.take(tags@.len() as int) =~= tags@);
        }
        let unique = deduplicate_tags(&combined);
        working.tags = unique;
        let ghost wv = working@;
        let ghost sv0 = self.signal_seq();
        let ghost before = *self;
        proof {
            assert(wv.tags =~= str_views(working.tags@));
        }
        self.signals.set(i, working);
        proof {
            before.lemma_signal_keys();
            assert(self.signal_seq() =~= sv0.update(i as int, wv));
            crate::keyed::lemma_keyed_update(sv0, signal_key(), i as int, wv);
            assert forall|a: int, b: int| 0 <= a < b < self.signals@.len() implies (
            #[trigger] self.signals@[a]).id < (#[trigger] self.signals@[b]).id by {
                assert(before.signals@[a].id < before.signals@[b].id);
            }
            assert forall|a: int| 0 <= a < self.signals@.len() implies (
            #[trigger] self.signals@[a]).id <= self.signal_counter by {
                assert(before.signals@[a].id <= before.signal_counter);
            }
        }
        Ok(())
    }
}


impl SignalRegistry {
    /// Puts `s` in place of the signal at position `i`, which has the same id.
    fn replace_signal(&mut self, i: usize, s: Signal)
        requires
            old(self).wf(),
            i < old(self).signals@.len(),
            s.id == old(self).signals@[i as int].id,
        ensures
            final(self).wf(),
            final(self).signal_map() == old(self).signal_map().insert(s.id, s@),
            final(self).signal_counter == old(self).signal_counter,
            final(self).trade_counter == old(self).trade_counter,
            final(self).provider_stats@ == old(self).provider_stats@,
            final(self).contests == old(self).contests,
            final(self).versions == old(self).versions,
    {
        let ghost sv = s@;
        let ghost sv0 = self.signal_seq();
        let ghost before = *self;
        self.signals.set(i, s);
        proof {
            before.lemma_signal_keys();
            assert(self.signal_seq() =~= sv0.update(i as int, sv));
            crate::keyed::lemma_keyed_update(sv0, signal_key(), i as int, sv);
            assert(sv0[i as int].id == sv.id);
            assert forall|a: int, b: int| 0 <= a < b < self.signals@.len() implies (
            #[trigger] self.signals@[a]).id < (#[trigger] self.signals@[b]).id by {
                assert(before.signals@[a].id < before.signals@[b].id);
            }
            assert forall|a: int| 0 <= a < self.signals@.len() implies (
            #[trigger] self.signals@[a]).id <= self.signal_counter by {
                assert(before.signals@[a].id <= before.signal_counter);
            }
        }
    }

    /// Publishes a collaborative signal of `primary_author` at ledger time
    /// `now`: a swing trade of medium risk without tags, published as
    /// `create_signal` publishes it and then held back, pending the
    /// co-authors' approval.  `registration` is the outcome of recording the
    /// co-authors and their shares under the new id; when it fails, the
    /// failure is returned and nothing is published.
    pub fn create_collaborative_signal(
        &mut self,
        primary_author: Address,
        asset_pair: String,
        action: SignalAction,
        price: i128,
        rationale: String,
        expiry: u64,
        now: u64,
        checks: Result<(), AdminError>,
        registration: Result<(), AdminError>,
    ) -> (r: Result<u64, AdminError>)
        requires
            old(self).wf(),
            checks is Ok ==> now + MAX_EXPIRY_SECONDS <= u64::MAX && now < expiry && expiry <= now
                + MAX_EXPIRY_SECONDS,
            checks is Ok ==> old(self).signal_counter < u64::MAX,
            checks is Ok ==> forall|id: u64|
                #![trigger old(self).contests.contest_map()[id]]
                old(self).contests.contest_map().contains_key(id) && old(self).contests.active@.contains(id)
                    && contests::accepts_entries(old(self).contests.contest_map()[id], now)
                    ==> contests::can_count(
                    old(self).contests.contest_map()[id],
                    published((old(self).signal_counter + 1) as u64, primary_author, asset_pair@, action, price,
                        rationale@, expiry, SignalCategory::SwingTrade, Seq::empty(), RiskLevel::Medium, now),
                ),
        ensures
            final(self).wf(),
            checks is Err ==> r == Err::<u64, AdminError>(checks->Err_0) && *final(self) == *old(self),
            checks is Ok && registration is Err ==> r == Err::<u64, AdminError>(registration->Err_0)
                && *final(self) == *old(self),
            checks is Ok && registration is Ok ==> {
                let id = (old(self).signal_counter + 1) as u64;
                let sig = published(id, primary_author, asset_pair@, action, price, rationale@, expiry,
                    SignalCategory::SwingTrade, Seq::empty(), RiskLevel::Medium, now);
                &&& r == Ok::<u64, AdminError>(id)
                &&& final(self).signal_counter == id
                &&& final(self).signal_map() == old(self).signal_map().insert(
                    id,
                    SignalView { is_collaborative: true, status: SignalStatus::Pending, ..sig },
                )
                &&& final(self).contests.contest_map() == contests::contests_after_signal(
                    old(self).contests.contest_map(),
                    old(self).contests.active@,
                    sig,
                    now,
                )
                &&& final(self).contests.active@ == old(self).contests.active@
                &&& final(self).contests.prizes@ == old(self).contests.prizes@
                &&& final(self).contests.counter == old(self).contests.counter
                &&& final(self).stats_map() == if old(self).stats_map().contains_key(primary_author) {
                    old(self).stats_map()
                } else {
                    old(self).stats_map().insert(primary_author, no_performance())
                }
                &&& final(self).versions == old(self).versions
                &&& final(self).trade_counter == old(self).trade_counter
            },
    {
        if checks.is_ok() {
            match registration {
                Err(e) => {
                    return Err(e);
                },
                Ok(()) => {},
            }
        }
        let no_tags: Vec<String> = Vec::new();
        proof {
            assert(without_repeats(str_views(no_tags@)) =~= Seq::<Seq<char>>::empty());
        }
        let id = self.create_signal(
            primary_author,
            asset_pair,
            action,
            price,
            rationale,
            expiry,
            SignalCategory::SwingTrade,
            no_tags,
            RiskLevel::Medium,
            now,
            checks,
        )?;
        let i = match self.find_signal(id) {
            Some(i) => i,
            None => {
                return Ok(id);
            },
        };
        let mut s = copy_signal(&self.signals[i]);
        s.is_collaborative = true;
        s.status = SignalStatus::Pending;
        self.replace_signal(i, s);
        Ok(id)
    }

    /// Acts on the outcome of an approval of signal `signal_id`, given as
    /// `approval`: an error, or whether every co-author has now approved.
    /// An error is passed on; once every co-author has approved, the
    /// held-back signal becomes active.
    pub fn approve_collaborative_signal(
        &mut self,
        signal_id: u64,
        approval: Result<bool, AdminError>,
    ) -> (r: Result<(), AdminError>)
        requires
            old(self).wf(),
        ensures
            final(self).wf(),
            final(self).signal_counter == old(self).signal_counter,
            final(self).trade_counter == old(self).trade_counter,
            final(self).provider_stats@ == old(self).provider_stats@,
            final(self).contests == old(self).contests,
            final(self).versions == old(self).versions,
            ({
                let m = old(self).signal_map();
                match approval {
                    Err(e) => r == Err::<(), AdminError>(e) && final(self).signal_map() == m,
                    Ok(false) => r is Ok && final(self).signal_map() == m,
                    Ok(true) => if m.contains_key(signal_id) {
                        r is Ok && final(self).signal_map() == m.insert(
                            signal_id,
                            SignalView { status: SignalStatus::Active, ..m[signal_id] },
                        )
                    } else {
                        r == Err::<(), AdminError>(AdminError::InvalidParameter) && final(self).signal_map() == m
                    },
                }
            }),
    {
        let all_approved = match approval {
            Err(e) => {
                return Err(e);
            },
            Ok(b) => b,
        };
        if all_approved {
            let i = match self.find_signal(signal_id) {
                Some(i) => i,
                None => {
                    return Err(AdminError::InvalidParameter);
                },
            };
            let mut s = copy_signal(&self.signals[i]);
            s.status = SignalStatus::Active;
            self.replace_signal(i, s);
        }
        Ok(())
    }
}


/// Every stored signal has an id handed out already, so the next id is
/// fresh: publishing never replaces a stored signal.
pub proof fn law_fresh_signal_id(reg: &SignalRegistry)
    requires
        reg.wf(),
        reg.signal_counter < u64::MAX,
    ensures
        forall|id: u64| #[trigger] reg.signal_map().contains_key(id) ==> id <= reg.signal_counter,
        !reg.signal_map().contains_key((reg.signal_counter + 1) as u64),
{
    assert forall|id: u64| #[trigger] reg.signal_map().contains_key(id) implies id <= reg.signal_counter by {
        let i = choose|i: int| 0 <= i < reg.signal_seq().len() && (signal_key())(#[trigger] reg.signal_seq()[i]) == id;
        assert(reg.signal_seq()[i] == reg.signals@[i]@);
    }
}


impl SignalRegistry {
    /// The checks a trade report passes before it is recorded: both prices
    /// positive, then a positive volume, then a known signal.  It only
    /// checks; it records nothing.
    pub fn check_trade(&self, signal_id: u64, entry_price: i128, exit_price: i128, volume: i128) -> (r: Result<
        (),
        PerformanceError,
    >)
        requires
            self.wf(),
        ensures
            r == if entry_price <= 0 || exit_price <= 0 {
                Err::<(), PerformanceError>(PerformanceError::InvalidPrice)
            } else if volume <= 0 {
                Err::<(), PerformanceError>(PerformanceError::InvalidVolume)
            } else if !self.signal_map().contains_key(signal_id) {
                Err::<(), PerformanceError>(PerformanceError::SignalNotFound)
            } else {
                Ok(())
            },
    {
        if entry_price <= 0 || exit_price <= 0 {
            return Err(PerformanceError::InvalidPrice);
        }
        if volume <= 0 {
            return Err(PerformanceError::InvalidVolume);
        }
        match self.find_signal(signal_id) {
            Some(_) => Ok(()),
            None => Err(PerformanceError::SignalNotFound),
        }
    }
}

/// Whether `submitter` may publish from a template: anyone may use a public
/// template, only its owner a private one.
pub fn template_access(is_public: bool, owner: Address, submitter: Address) -> (r: Result<(), TemplateError>)
    ensures
        r == if !is_public && owner != submitter {
            Err::<(), TemplateError>(TemplateError::PrivateTemplate)
        } else {
            Ok(())
        },
{
    if !is_public && !owner.same(&submitter) {
        return Err(TemplateError::PrivateTemplate);
    }
    Ok(())
}

/// When a signal published from a template at ledger time `now` expires:
/// the template's default number of hours later, which must fit the
/// ledger clock and lie within the thirty-day limit.
pub fn template_expiry(now: u64, default_expiry_hours: u32) -> (r: Result<u64, TemplateError>)
    requires
        now + default_expiry_hours * 3600 <= u64::MAX ==> now + MAX_EXPIRY_SECONDS <= u64::MAX,
    ensures
        r == if now + default_expiry_hours * 3600 > u64::MAX || default_expiry_hours * 3600 > MAX_EXPIRY_SECONDS {
            Err::<u64, TemplateError>(TemplateError::InvalidExpiry)
        } else {
            Ok::<u64, TemplateError>((now + default_expiry_hours * 3600) as u64)
        },
{
    let span: u64 = default_expiry_hours as u64 * 3600;
    let expiry = match now.checked_add(span) {
        Some(e) => e,
        None => {
            return Err(TemplateError::InvalidExpiry);
        },
    };
    if expiry > now + MAX_EXPIRY_SECONDS {
        return Err(TemplateError::InvalidExpiry);
    }
    Ok(expiry)
}


impl SignalRegistry {
    /// Sets the statistics of `provider` to `p`.
    fn set_stats(&mut self, provider: Address, p: ProviderPerformance)
        requires
            old(self).wf(),
        ensures
            final(self).wf(),
            final(self).stats_map() == old(self).stats_map().insert(provider, p),
            final(self).signals@ == old(self).signals@,
            final(self).signal_counter == old(self).signal_counter,
            final(self).trade_counter == old(self).trade_counter,
            final(self).contests == old(self).contests,
            final(self).versions == old(self).versions,
    {
        let ghost st0 = self.provider_stats@;
        let ghost before = *self;
        let mut i: usize = 0;
        while i < self.provider_stats.len()
            invariant
                i <= st0.len(),
                self.provider_stats@ == st0,
                *self == before,
                before == *old(self),
                before.wf(),
                st0 == before.provider_stats@,
                forall|j: int| 0 <= j < i ==> (#[trigger] st0[j]).0 != provider,
            decreases st0.len() - i,
        {
            if self.provider_stats[i].0.same(&provider) {
                proof {
                    assert(keys_distinct(st0, stat_key()));
                    lemma_keyed_at(st0, stat_key(), i as int);
                }
                self.provider_stats.set(i, (provider, p));
                proof {
                    crate::keyed::lemma_keyed_update(st0, stat_key(), i as int, (provider, p));
                    assert(self.stats_map() =~= before.stats_map().insert(provider, p));
                    assert forall|a: int, b: int|
                        0 <= a < self.provider_stats@.len() && 0 <= b < self.provider_stats@.len() && a != b implies (
                    stat_key())(#[trigger] self.provider_stats@[a]) != (stat_key())(#[trigger] self.provider_stats@[b]) by {
                        assert(st0[i as int].0 == provider);
                    }
                }
                return;
            }
            i = i + 1;
        }
        proof {
            assert(keys_distinct(st0, stat_key()));
            lemma_keyed_absent(st0, stat_key(), provider);
        }
        self.provider_stats.push((provider, p));
        proof {
            crate::keyed::lemma_keyed_push(st0, stat_key(), (provider, p));
            assert(self.stats_map() =~= before.stats_map().insert(provider, p));
            assert forall|a: int, b: int|
                0 <= a < self.provider_stats@.len() && 0 <= b < self.provider_stats@.len() && a != b implies (
            stat_key())(#[trigger] self.provider_stats@[a]) != (stat_key())(#[trigger] self.provider_stats@[b]) by {
                if a < st0.len() && b < st0.len() {
                    assert(self.provider_stats@[a] == st0[a] && self.provider_stats@[b] == st0[b]);
                }
            }
        }
    }

    /// Records a trade on signal `signal_id`.  After the checks of
    /// `check_trade`, the signal is replaced by `updated`, its new state
    /// with the trade counted in, and when `stats` is given, the statistics
    /// of the updated signal's provider become `stats`.  A refused trade
    /// changes nothing.
    pub fn record_trade(
        &mut self,
        signal_id: u64,
        entry_price: i128,
        exit_price: i128,
        volume: i128,
        updated: Signal,
        stats: Option<ProviderPerformance>,
    ) -> (r: Result<(), PerformanceError>)
        requires
            old(self).wf(),
        ensures
            final(self).wf(),
            r is Err ==> *final(self) == *old(self),
            r == if entry_price <= 0 || exit_price <= 0 {
                Err::<(), PerformanceError>(PerformanceError::InvalidPrice)
            } else if volume <= 0 {
                Err::<(), PerformanceError>(PerformanceError::InvalidVolume)
            } else if !old(self).signal_map().contains_key(signal_id) {
                Err::<(), PerformanceError>(PerformanceError::SignalNotFound)
            } else {
                Ok(())
            },
            r is Ok ==> {
                &&& final(self).signal_map() == old(self).signal_map().insert(
                    signal_id,
                    SignalView { id: signal_id, ..updated@ },
                )
                &&& final(self).stats_map() == match stats {
                    Some(p) => old(self).stats_map().insert(updated.provider, p),
                    None => old(self).stats_map(),
                }
                &&& final(self).signal_counter == old(self).signal_counter
                &&& final(self).trade_counter == old(self).trade_counter
                &&& final(self).contests == old(self).contests
                &&& final(self).versions == old(self).versions
            },
    {
        self.check_trade(signal_id, entry_price, exit_price, volume)?;
        let i = match self.find_signal(signal_id) {
            Some(i) => i,
            None => {
                return Err(PerformanceError::SignalNotFound);
            },
        };
        let provider = updated.provider;
        let mut working = updated;
        working.id = signal_id;
        proof {
            assert(working@ == (SignalView { id: signal_id, ..updated@ }));
        }
        self.replace_signal(i, working);
        match stats {
            Some(p) => {
                let ghost mid = *self;
                self.set_stats(provider, p);
                proof {
                    assert(self.signal_map() == mid.signal_map());
                }
            },
            None => {},
        }
        Ok(())
    }
}


/// Why publishing from a template is refused before anything is
/// published, if it is: a private template used by another, a missing
/// asset pair, a refused asset pair, a failed action, price or rationale,
/// or an expiry out of range, in that order.
pub open spec fn template_refusal(
    is_public: bool,
    owner: Address,
    submitter: Address,
    asset_pair: Option<String>,
    pair_check: Result<(), AdminError>,
    action: Result<SignalAction, TemplateError>,
    price: Result<i128, TemplateError>,
    rationale: Result<String, TemplateError>,
    default_expiry_hours: u32,
    now: u64,
) -> Option<TemplateError> {
    if !is_public && owner != submitter {
        Some(TemplateError::PrivateTemplate)
    } else if asset_pair is None {
        Some(TemplateError::MissingVariable)
    } else if pair_check is Err {
        Some(TemplateError::InvalidTemplate)
    } else if action is Err {
        Some(action->Err_0)
    } else if price is Err {
        Some(price->Err_0)
    } else if rationale is Err {
        Some(rationale->Err_0)
    } else if now + default_expiry_hours * 3600 > u64::MAX || default_expiry_hours * 3600 > MAX_EXPIRY_SECONDS {
        Some(TemplateError::InvalidExpiry)
    } else {
        None
    }
}

/// The signal a template publication makes.
pub open spec fn template_signal(
    id: u64,
    submitter: Address,
    asset_pair: Option<String>,
    action: Result<SignalAction, TemplateError>,
    price: Result<i128, TemplateError>,
    rationale: Result<String, TemplateError>,
    default_expiry_hours: u32,
    now: u64,
) -> SignalView {
    published(
        id,
        submitter,
        asset_pair->Some_0@,
        action->Ok_0,
        price->Ok_0,
        rationale->Ok_0@,
        (now + default_expiry_hours * 3600) as u64,
        SignalCategory::SwingTrade,
        Seq::empty(),
        RiskLevel::Medium,
        now,
    )
}

impl SignalRegistry {
    /// Publishes a signal from a template on behalf of `submitter` at ledger
    /// time `now`.  The template is public or owned by `owner`; the asset
    /// pair (absent when neither template nor submitter gives one), the
    /// verdict on it, the action, the price and the rationale come filled
    /// in from the template and the submitter's values.  Refusals come in
    /// the order of `template_refusal`; then the signal, a swing trade of
    /// medium risk without tags expiring `default_expiry_hours` after `now`,
    /// is published as `create_signal` publishes it, any failure there
    /// (`checks`) being reported as an invalid template.
    pub fn publish_from_template(
        &mut self,
        is_public: bool,
        owner: Address,
        submitter: Address,
        asset_pair: Option<String>,
        pair_check: Result<(), AdminError>,
        action: Result<SignalAction, TemplateError>,
        price: Result<i128, TemplateError>,
        rationale: Result<String, TemplateError>,
        default_expiry_hours: u32,
        now: u64,
        checks: Result<(), AdminError>,
    ) -> (r: Result<u64, TemplateError>)
        requires
            old(self).wf(),
            (is_public || owner == submitter) && asset_pair is Some && pair_check is Ok && action is Ok && price is Ok
                && rationale is Ok && now + default_expiry_hours * 3600 <= u64::MAX ==> now + MAX_EXPIRY_SECONDS
                <= u64::MAX,
            template_refusal(is_public, owner, submitter, asset_pair, pair_check, action, price, rationale,
                default_expiry_hours, now) is None && checks is Ok ==> {
                &&& default_expiry_hours > 0
                &&& old(self).signal_counter < u64::MAX
                &&& forall|id: u64|
                    #![trigger old(self).contests.contest_map()[id]]
                    old(self).contests.contest_map().contains_key(id) && old(self).contests.active@.contains(id)
                        && contests::accepts_entries(old(self).contests.contest_map()[id], now) ==> contests::can_count(
                        old(self).contests.contest_map()[id],
                        template_signal((old(self).signal_counter + 1) as u64, submitter, asset_pair, action, price,
                            rationale, default_expiry_hours, now),
                    )
            },
        ensures
            final(self).wf(),
            ({
                let refusal = template_refusal(is_public, owner, submitter, asset_pair, pair_check, action, price,
                    rationale, default_expiry_hours, now);
                if refusal is Some {
                    r == Err::<u64, TemplateError>(refusal->Some_0) && *final(self) == *old(self)
                } else if checks is Err {
                    r == Err::<u64, TemplateError>(TemplateError::InvalidTemplate) && *final(self) == *old(self)
                } else {
                    let id = (old(self).signal_counter + 1) as u64;
                    let sig = template_signal(id, submitter, asset_pair, action, price, rationale,
                        default_expiry_hours, now);
                    &&& r == Ok::<u64, TemplateError>(id)
                    &&& final(self).signal_counter == id
                    &&& final(self).signal_map() == old(self).signal_map().insert(id, sig)
                    &&& final(self).contests.contest_map() == contests::contests_after_signal(
                        old(self).contests.contest_map(),
                        old(self).contests.active@,
                        sig,
                        now,
                    )
                    &&& final(self).contests.active@ == old(self).contests.active@
                    &&& final(self).contests.prizes@ == old(self).contests.prizes@
                    &&& final(self).contests.counter == old(self).contests.counter
                    &&& final(self).stats_map() == if old(self).stats_map().contains_key(submitter) {
                        old(self).stats_map()
                    } else {
                        old(self).stats_map().insert(submitter, no_performance())
                    }
                    &&& final(self).versions == old(self).versions
                    &&& final(self).trade_counter == old(self).trade_counter
                }
            }),
    {
        template_access(is_public, owner, submitter)?;
        let pair = match asset_pair {
            Some(p) => p,
            None => {
                return Err(TemplateError::MissingVariable);
            },
        };
        if pair_check.is_err() {
            return Err(TemplateError::InvalidTemplate);
        }
        let act = action?;
        let p = price?;
        let why = rationale?;
        let expiry = template_expiry(now, default_expiry_hours)?;
        let no_tags: Vec<String> = Vec::new();
        proof {
            assert(without_repeats(str_views(no_tags@)) =~= Seq::<Seq<char>>::empty());
        }
        match self.create_signal(
            submitter,
            pair,
            act,
            p,
            why,
            expiry,
            SignalCategory::SwingTrade,
            no_tags,
            RiskLevel::Medium,
            now,
            checks,
        ) {
            Ok(id) => Ok(id),
            Err(_) => Err(TemplateError::InvalidTemplate),
        }
    }
}


/// Every signal on a page of the feed is active and not yet expired at
/// `now`, and matches each filter given: its category and risk level are
/// among those asked for, and it carries one of the tags asked for.  A
/// page holds at most `limit` signals.
pub proof fn law_feed_shows_only_live_matching_signals(
    signals: Seq<SignalView>,
    categories: Option<Seq<SignalCategory>>,
    tags: Option<Seq<Seq<char>>>,
    risk_levels: Option<Seq<RiskLevel>>,
    offset: u32,
    limit: u32,
    now: u64,
)
    ensures
        page(signals.filter(feed_filter(categories, tags, risk_levels, now)), offset, limit).len() <= limit,
        forall|i: int|
            0 <= i < page(signals.filter(feed_filter(categories, tags, risk_levels, now)), offset, limit).len() ==> {
                let s = #[trigger] page(signals.filter(feed_filter(categories, tags, risk_levels, now)), offset, limit)[i];
                &&& s.status == SignalStatus::Active
                &&& s.expiry > now
                &&& (categories matches Some(c) ==> c.contains(s.category))
                &&& (risk_levels matches Some(r) ==> r.contains(s.risk_level))
                &&& (tags matches Some(t) ==> exists|x: Seq<char>| t.contains(x) && s.tags.contains(x))
                &&& signals.contains(s)
            },
{
    let pred = feed_filter(categories, tags, risk_levels, now);
    let f = signals.filter(pred);
    let pg = page(f, offset, limit);
    let total = f.len() as int;
    let start = if offset < total { offset as int } else { total };
    assert forall|i: int| 0 <= i < pg.len() implies {
        let s = #[trigger] pg[i];
        &&& s.status == SignalStatus::Active
        &&& s.expiry > now
        &&& (categories matches Some(c) ==> c.contains(s.category))
        &&& (risk_levels matches Some(r) ==> r.contains(s.risk_level))
        &&& (tags matches Some(t) ==> exists|x: Seq<char>| t.contains(x) && s.tags.contains(x))
        &&& signals.contains(s)
    } by {
        assert(pg[i] == f[start + i]);
        signals.lemma_filter_pred(pred, start + i);
        signals.lemma_filter_contains_rev(pred, f[start + i]);
    }
}

/// A published signal carries exactly what its publisher gave: its id,
/// provider, asset pair, action, price, rationale, expiry, category, tags
/// and risk level; it is stamped with the publication time, starts active,
/// with no executions, volume or returns, and is not collaborative.
pub proof fn law_published_signal_carries_inputs(
    id: u64,
    provider: Address,
    asset_pair: Seq<char>,
    action: SignalAction,
    price: i128,
    rationale: Seq<char>,
    expiry: u64,
    category: SignalCategory,
    tags: Seq<Seq<char>>,
    risk_level: RiskLevel,
    now: u64,
)
    ensures
        ({
            let s = published(id, provider, asset_pair, action, price, rationale, expiry, category, tags, risk_level, now);
            &&& s.id == id && s.provider == provider && s.asset_pair == asset_pair
            &&& s.action == action && s.price == price && s.rationale == rationale
            &&& s.expiry == expiry && s.category == category && s.tags == tags && s.risk_level == risk_level
            &&& s.timestamp == now && s.status == SignalStatus::Active
            &&& s.executions == 0 && s.successful_executions == 0 && s.total_volume == 0 && s.total_roi == 0
            &&& !s.is_collaborative
        }),
{
}

/// After a successful publication, reading the new id gives back a signal
/// with the caller's action, asset pair, price, rationale, expiry, category
/// and risk level, and its tags are the given ones, each once, in order of
/// first appearance.
pub proof fn law_create_then_get(
    reg0: SignalRegistry,
    reg1: SignalRegistry,
    provider: Address,
    asset_pair: Seq<char>,
    action: SignalAction,
    price: i128,
    rationale: Seq<char>,
    expiry: u64,
    category: SignalCategory,
    tags: Seq<Seq<char>>,
    risk_level: RiskLevel,
    now: u64,
)
    requires
        reg1.signal_map() == reg0.signal_map().insert(
            (reg0.signal_counter + 1) as u64,
            published((reg0.signal_counter + 1) as u64, provider, asset_pair, action, price, rationale, expiry, category,
                without_repeats(tags), risk_level, now),
        ),
    ensures
        ({
            let s = reg1.signal_map()[(reg0.signal_counter + 1) as u64];
            &&& reg1.signal_map().contains_key((reg0.signal_counter + 1) as u64)
            &&& s.action == action && s.asset_pair == asset_pair && s.price == price && s.rationale == rationale
            &&& s.expiry == expiry && s.category == category && s.risk_level == risk_level && s.provider == provider
            &&& forall|t: Seq<char>| #[trigger] s.tags.contains(t) <==> tags.contains(t)
            &&& s.tags.no_duplicates()
        }),
{
    lemma_without_repeats(tags);
}

/// Dropping repeats keeps exactly the tags present, each once.
proof fn lemma_without_repeats(tags: Seq<Seq<char>>)
    ensures
        forall|t: Seq<char>| #[trigger] without_repeats(tags).contains(t) <==> tags.contains(t),
        without_repeats(tags).no_duplicates(),
    decreases tags.len(),
{
    if tags.len() > 0 {
        let d = tags.drop_last();
        let last = tags.last();
        lemma_without_repeats(d);
        let rest = without_repeats(d);
        assert forall|t: Seq<char>| #[trigger] tags.contains(t) <==> d.contains(t) || t == last by {
            if tags.contains(t) {
                let k = choose|k: int| 0 <= k < tags.len() && tags[k] == t;
                if k < tags.len() - 1 {
                    assert(d[k] == t);
                }
            }
            if d.contains(t) {
                let k = choose|k: int| 0 <= k < d.len() && d[k] == t;
                assert(tags[k] == t);
            }
            if t == last {
                assert(tags[tags.len() - 1] == t);
            }
        }
        if !d.contains(last) {
            assert forall|t: Seq<char>| #[trigger] rest.push(last).contains(t) <==> rest.contains(t) || t == last by {
                if rest.push(last).contains(t) {
                    let k = choose|k: int| 0 <= k < rest.push(last).len() && rest.push(last)[k] == t;
                    if k < rest.len() {
                        assert(rest[k] == t);
                    }
                }
                if rest.contains(t) {
                    let k = choose|k: int| 0 <= k < rest.len() && rest[k] == t;
                    assert(rest.push(last)[k] == t);
                }
                if t == last {
                    assert(rest.push(last)[rest.len() as int] == t);
                }
            }
            assert forall|a: int, b: int| 0 <= a < rest.push(last).len() && 0 <= b < rest.push(last).len() && a != b
                implies rest.push(last)[a] != rest.push(last)[b] by {
                if a == rest.len() as int && b < rest.len() {
                    assert(rest.contains(rest[b]));
                } else if b == rest.len() as int && a < rest.len() {
                    assert(rest.contains(rest[a]));
                }
            }
        }
    }
}

} // verus!
