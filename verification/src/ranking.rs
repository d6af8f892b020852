//! Rankings: records ordered by a score, highest first, ties broken by the
//! ledger order of an address carried by each record.

use vstd::prelude::*;
use crate::types::{Address, lemma_address_order};

verus! {

/// `a` ranks strictly ahead of `b`.
pub open spec fn ranks_before<T>(
    a: T,
    b: T,
    score: spec_fn(T) -> int,
    who: spec_fn(T) -> Address,
) -> bool {
    ||| score(a) > score(b)
    ||| (score(a) == score(b) && who(a).precedes(who(b)))
}

/// Every record of `r` ranks strictly ahead of every later record.
pub open spec fn strictly_ranked<T>(
    r: Seq<T>,
    score: spec_fn(T) -> int,
    who: spec_fn(T) -> Address,
) -> bool {
    forall|i: int, j: int|
        0 <= i < j < r.len() ==> ranks_before(#[trigger] r[i], #[trigger] r[j], score, who)
}

/// No two records of `s` carry the same address.
pub open spec fn distinct_who<T>(s: Seq<T>, who: spec_fn(T) -> Address) -> bool {
    forall|i: int, j: int|
        0 <= i < s.len() && 0 <= j < s.len() && i != j ==> who(#[trigger] s[i]) != who(
            #[trigger] s[j],
        )
}

/// `r` holds exactly the members of `members`, in ranking order.
pub open spec fn ranks<T>(
    r: Seq<T>,
    members: Set<T>,
    score: spec_fn(T) -> int,
    who: spec_fn(T) -> Address,
) -> bool {
    &&& strictly_ranked(r, score, who)
    &&& forall|x: T| r.contains(x) <==> members.contains(x)
}

/// The ranking of `members` (unique when one exists: see `lemma_ranking_unique`).
pub open spec fn ranking<T>(
    members: Set<T>,
    score: spec_fn(T) -> int,
    who: spec_fn(T) -> Address,
) -> Seq<T> {
    choose|r: Seq<T>| ranks(r, members, score, who)
}

pub proof fn lemma_ranks_before_order<T>(
    a: T,
    b: T,
    c: T,
    score: spec_fn(T) -> int,
    who: spec_fn(T) -> Address,
)
    ensures
        !ranks_before(a, a, score, who),
        ranks_before(a, b, score, who) ==> !ranks_before(b, a, score, who),
        ranks_before(a, b, score, who) && ranks_before(b, c, score, who) ==> ranks_before(
            a,
            c,
            score,
            who,
        ),
        who(a) != who(b) ==> ranks_before(a, b, score, who) || ranks_before(b, a, score, who),
{
    lemma_address_order(who(a), who(b), who(c));
}

proof fn lemma_rankings_agree_upto<T>(
    r1: Seq<T>,
    r2: Seq<T>,
    members: Set<T>,
    score: spec_fn(T) -> int,
    who: spec_fn(T) -> Address,
    n: int,
)
    requires
        ranks(r1, members, score, who),
        ranks(r2, members, score, who),
        0 <= n <= r1.len(),
        n <= r2.len(),
    ensures
        forall|i: int| 0 <= i < n ==> r1[i] == r2[i],
    decreases n,
{
    if n > 0 {
        lemma_rankings_agree_upto(r1, r2, members, score, who, n - 1);
        let k = n - 1;
        if r1[k] != r2[k] {
            assert(r1.contains(r1[k]));
            assert(r2.contains(r1[k]));
            let j = choose|j: int| 0 <= j < r2.len() && r2[j] == r1[k];
            assert(r2.contains(r2[k]));
            assert(r1.contains(r2[k]));
            let m = choose|m: int| 0 <= m < r1.len() && r1[m] == r2[k];
            lemma_ranks_before_order(r1[k], r2[k], r1[k], score, who);
            if j < k {
                assert(r2[j] == r1[j]);
                assert(ranks_before(r1[j], r1[k], score, who));
            } else if m < k {
                assert(r1[m] == r2[m]);
                assert(ranks_before(r2[m], r2[k], score, who));
            } else {
                assert(ranks_before(r2[k], r2[j], score, who));
                assert(ranks_before(r1[k], r1[m], score, who));
            }
        }
    }
}

proof fn lemma_ranking_len_le<T>(
    r1: Seq<T>,
    r2: Seq<T>,
    members: Set<T>,
    score: spec_fn(T) -> int,
    who: spec_fn(T) -> Address,
)
    requires
        ranks(r1, members, score, who),
        ranks(r2, members, score, who),
    ensures
        r2.len() <= r1.len(),
{
    if r1.len() < r2.len() {
        lemma_rankings_agree_upto(r1, r2, members, score, who, r1.len() as int);
        let x = r2[r1.len() as int];
        assert(r2.contains(x));
        assert(r1.contains(x));
        let m = choose|m: int| 0 <= m < r1.len() && r1[m] == x;
        assert(r2[m] == x);
        assert(ranks_before(r2[m], r2[r1.len() as int], score, who));
        lemma_ranks_before_order(x, x, x, score, who);
    }
}

/// A set of records has at most one ranking.
pub proof fn lemma_ranking_unique<T>(
    r1: Seq<T>,
    r2: Seq<T>,
    members: Set<T>,
    score: spec_fn(T) -> int,
    who: spec_fn(T) -> Address,
)
    requires
        ranks(r1, members, score, who),
        ranks(r2, members, score, who),
    ensures
        r1 == r2,
{
    lemma_ranking_len_le(r1, r2, members, score, who);
    lemma_ranking_len_le(r2, r1, members, score, who);
    lemma_rankings_agree_upto(r1, r2, members, score, who, r1.len() as int);
    assert(r1 =~= r2);
}

/// Once a ranking is shown, it is `ranking(members)`.
pub proof fn lemma_ranking_is<T>(
    r: Seq<T>,
    members: Set<T>,
    score: spec_fn(T) -> int,
    who: spec_fn(T) -> Address,
)
    requires
        ranks(r, members, score, who),
    ensures
        ranking(members, score, who) == r,
{
    let c = ranking(members, score, who);
    assert(ranks(c, members, score, who));
    lemma_ranking_unique(c, r, members, score, who);
}

/// Where `x` goes in a ranked sequence: before the first record it ranks
/// ahead of.
pub open spec fn insert_pos<T>(
    r: Seq<T>,
    x: T,
    score: spec_fn(T) -> int,
    who: spec_fn(T) -> Address,
) -> int
    decreases r.len(),
{
    if r.len() == 0 {
        0
    } else if ranks_before(x, r[0], score, who) {
        0
    } else {
        1 + insert_pos(r.drop_first(), x, score, who)
    }
}

pub proof fn lemma_insert_pos<T>(
    r: Seq<T>,
    x: T,
    score: spec_fn(T) -> int,
    who: spec_fn(T) -> Address,
)
    requires
        strictly_ranked(r, score, who),
        forall|i: int| 0 <= i < r.len() ==> who(#[trigger] r[i]) != who(x),
    ensures
        0 <= insert_pos(r, x, score, who) <= r.len(),
        forall|i: int|
            0 <= i < insert_pos(r, x, score, who) ==> ranks_before(#[trigger] r[i], x, score, who),
        insert_pos(r, x, score, who) < r.len() ==> ranks_before(
            x,
            r[insert_pos(r, x, score, who)],
            score,
            who,
        ),
    decreases r.len(),
{
    if r.len() > 0 && !ranks_before(x, r[0], score, who) {
        let t = r.drop_first();
        assert forall|i: int, j: int| 0 <= i < j < t.len() implies ranks_before(
            #[trigger] t[i],
            #[trigger] t[j],
            score,
            who,
        ) by {
            assert(t[i] == r[i + 1] && t[j] == r[j + 1]);
        }
        assert forall|i: int| 0 <= i < t.len() implies who(#[trigger] t[i]) != who(x) by {
            assert(t[i] == r[i + 1]);
        }
        lemma_insert_pos(t, x, score, who);
        lemma_ranks_before_order(x, r[0], x, score, who);
        assert(who(r[0]) != who(x));
        let p = insert_pos(r, x, score, who);
        assert forall|i: int| 0 <= i < p implies ranks_before(#[trigger] r[i], x, score, who) by {
            if i > 0 {
                assert(r[i] == t[i - 1]);
            }
        }
        if p < r.len() {
            assert(r[p] == t[p - 1]);
        }
    }
}

/// Records of `s` that satisfy `keep`.
pub open spec fn kept<T>(s: Seq<T>, keep: spec_fn(T) -> bool) -> Set<T> {
    Set::new(|x: T| s.contains(x) && keep(x))
}

/// Records with pairwise different addresses always have a ranking.
pub proof fn lemma_ranking_exists<T>(
    s: Seq<T>,
    keep: spec_fn(T) -> bool,
    score: spec_fn(T) -> int,
    who: spec_fn(T) -> Address,
)
    requires
        distinct_who(s, who),
    ensures
        ranks(ranking(kept(s, keep), score, who), kept(s, keep), score, who),
    decreases s.len(),
{
    if s.len() == 0 {
        let r = Seq::<T>::empty();
        assert forall|x: T| r.contains(x) <==> kept(s, keep).contains(x) by {}
        assert(ranks(r, kept(s, keep), score, who));
    } else {
        let s0 = s.drop_last();
        let x = s.last();
        assert forall|i: int, j: int|
            0 <= i < s0.len() && 0 <= j < s0.len() && i != j implies who(#[trigger] s0[i]) != who(
            #[trigger] s0[j],
        ) by {
            assert(s0[i] == s[i] && s0[j] == s[j]);
        }
        lemma_ranking_exists(s0, keep, score, who);
        let r0 = ranking(kept(s0, keep), score, who);
        assert forall|y: T| #![trigger s.contains(y)] s.contains(y) <==> (s0.contains(y) || y == x) by {
            if s.contains(y) {
                let k = choose|k: int| 0 <= k < s.len() && s[k] == y;
                if k < s0.len() {
                    assert(s0[k] == y);
                }
            }
            if s0.contains(y) {
                let k = choose|k: int| 0 <= k < s0.len() && s0[k] == y;
                assert(s[k] == y);
            }
            if y == x {
                assert(s[s.len() - 1] == y);
            }
        }
        if keep(x) {
            assert forall|i: int| 0 <= i < r0.len() implies who(#[trigger] r0[i]) != who(x) by {
                assert(r0.contains(r0[i]));
                assert(kept(s0, keep).contains(r0[i]));
                let k = choose|k: int| 0 <= k < s0.len() && s0[k] == r0[i];
                assert(s[k] == r0[i]);
            }
            lemma_insert_pos(r0, x, score, who);
            let p = insert_pos(r0, x, score, who);
            lemma_insert_ranked(r0, p, x, score, who);
            let r = r0.insert(p, x);
            assert forall|y: T| r.contains(y) <==> kept(s, keep).contains(y) by {
                assert(r.contains(y) <==> (y == x || r0.contains(y)));
                assert(r0.contains(y) <==> kept(s0, keep).contains(y));
                assert(s.contains(y) <==> (s0.contains(y) || y == x));
            }
            assert(ranks(r, kept(s, keep), score, who));
        } else {
            assert forall|y: T| r0.contains(y) <==> kept(s, keep).contains(y) by {
                assert(r0.contains(y) <==> kept(s0, keep).contains(y));
                assert(s.contains(y) <==> (s0.contains(y) || y == x));
            }
            assert(ranks(r0, kept(s, keep), score, who));
        }
    }
}

/// Inserting `x` where every earlier record ranks ahead of it and it ranks
/// ahead of the record it displaces keeps the sequence strictly ranked.
pub proof fn lemma_insert_ranked<T>(
    r: Seq<T>,
    p: int,
    x: T,
    score: spec_fn(T) -> int,
    who: spec_fn(T) -> Address,
)
    requires
        strictly_ranked(r, score, who),
        0 <= p <= r.len(),
        forall|i: int| 0 <= i < p ==> ranks_before(#[trigger] r[i], x, score, who),
        p < r.len() ==> ranks_before(x, r[p], score, who),
    ensures
        strictly_ranked(r.insert(p, x), score, who),
        forall|y: T| #[trigger] r.insert(p, x).contains(y) <==> (y == x || r.contains(y)),
        r.insert(p, x).len() == r.len() + 1,
{
    let t = r.insert(p, x);
    assert forall|i: int, j: int| 0 <= i < j < t.len() implies ranks_before(
        #[trigger] t[i],
        #[trigger] t[j],
        score,
        who,
    ) by {
        if j < p {
            assert(t[i] == r[i] && t[j] == r[j]);
        } else if j == p {
            assert(t[i] == r[i]);
        } else if i < p {
            assert(t[i] == r[i] && t[j] == r[j - 1]);
            lemma_ranks_before_order(r[i], x, r[j - 1], score, who);
            if j - 1 > p {
                lemma_ranks_before_order(x, r[p], r[j - 1], score, who);
            }
        } else if i == p {
            assert(t[j] == r[j - 1]);
            if j - 1 > p {
                lemma_ranks_before_order(x, r[p], r[j - 1], score, who);
            }
        } else {
            assert(t[i] == r[i - 1] && t[j] == r[j - 1]);
        }
    }
    assert forall|y: T| t.contains(y) <==> (y == x || r.contains(y)) by {
        if t.contains(y) {
            let k = choose|k: int| 0 <= k < t.len() && t[k] == y;
            if k < p {
                assert(r[k] == y);
            } else if k > p {
                assert(r[k - 1] == y);
            }
        }
        if y == x {
            assert(t[p] == x);
        } else if r.contains(y) {
            let k = choose|k: int| 0 <= k < r.len() && r[k] == y;
            if k < p {
                assert(t[k] == y);
            } else {
                assert(t[k + 1] == y);
            }
        }
    }
}

} // verus!
