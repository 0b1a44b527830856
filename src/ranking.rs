use vstd::prelude::*;
use crate::amount::Amount;

verus! {

broadcast use vstd::seq_lib::group_seq_properties;

/// One contributor of the billing breakdown: a service name and its cost, either
/// of which the billing data may lack (an unreadable cost is `None`).
#[derive(Clone, Debug)]
pub struct CostEntry {
    pub label: Option<String>,
    pub amount: Option<Amount>,
}

/// The cost an entry contributes to totals and rankings; an entry without a cost counts as 0.
pub open spec fn entry_key(e: CostEntry) -> int {
    match e.amount {
        Some(a) => a.units as int,
        None => 0,
    }
}

/// The sum of the costs of all entries.
pub open spec fn total_units(s: Seq<CostEntry>) -> int
    decreases s.len(),
{
    if s.len() == 0 {
        0
    } else {
        total_units(s.drop_last()) + entry_key(s.last())
    }
}

/// Entries ordered by cost, highest first.
pub open spec fn is_ranked(s: Seq<CostEntry>) -> bool {
    forall|i: int, j: int| 0 <= i < j < s.len() ==> entry_key(#[trigger] s[i]) >= entry_key(#[trigger] s[j])
}

/// Where `e` goes into a ranked list: before the first entry that costs less, so that
/// entries of equal cost keep their earlier order.
pub open spec fn rank_position(s: Seq<CostEntry>, e: CostEntry) -> int
    decreases s.len(),
{
    if s.len() == 0 {
        0
    } else if entry_key(s[0]) < entry_key(e) {
        0
    } else {
        1 + rank_position(s.drop_first(), e)
    }
}

pub open spec fn insert_ranked(s: Seq<CostEntry>, e: CostEntry) -> Seq<CostEntry> {
    s.insert(rank_position(s, e), e)
}

/// The entries sorted by cost, highest first; equal costs keep their input order.
pub open spec fn ranked(s: Seq<CostEntry>) -> Seq<CostEntry>
    decreases s.len(),
{
    if s.len() == 0 {
        s
    } else {
        insert_ranked(ranked(s.drop_last()), s.last())
    }
}

/// The `n` most expensive entries, or all of them when there are fewer.
pub open spec fn top_entries(s: Seq<CostEntry>, n: nat) -> Seq<CostEntry> {
    let r = ranked(s);
    r.take(if n <= r.len() { n as int } else { r.len() as int })
}

proof fn lemma_rank_position(s: Seq<CostEntry>, e: CostEntry)
    ensures
        0 <= rank_position(s, e) <= s.len(),
        forall|j: int| 0 <= j < rank_position(s, e) ==> entry_key(#[trigger] s[j]) >= entry_key(e),
        rank_position(s, e) < s.len() ==> entry_key(s[rank_position(s, e)]) < entry_key(e),
    decreases s.len(),
{
    if s.len() > 0 && entry_key(s[0]) >= entry_key(e) {
        let t = s.drop_first();
        lemma_rank_position(t, e);
        assert forall|j: int| 0 <= j < rank_position(s, e) implies entry_key(#[trigger] s[j])
            >= entry_key(e) by {
            if j > 0 {
                assert(s[j] == t[j - 1]);
            }
        }
    }
}

/// A scan that stops at the first cheaper entry finds the rank position.
proof fn lemma_rank_position_at(s: Seq<CostEntry>, e: CostEntry, p: int)
    requires
        0 <= p <= s.len(),
        forall|j: int| 0 <= j < p ==> entry_key(#[trigger] s[j]) >= entry_key(e),
        p < s.len() ==> entry_key(s[p]) < entry_key(e),
    ensures
        rank_position(s, e) == p,
    decreases p,
{
    if p > 0 {
        let t = s.drop_first();
        assert forall|j: int| 0 <= j < p - 1 implies entry_key(#[trigger] t[j]) >= entry_key(e) by {
            assert(t[j] == s[j + 1]);
        }
        if p < s.len() {
            assert(t[p - 1] == s[p]);
        }
        assert(entry_key(s[0]) >= entry_key(e));
        lemma_rank_position_at(t, e, p - 1);
    }
}

proof fn lemma_insert_ranked(s: Seq<CostEntry>, e: CostEntry)
    requires
        is_ranked(s),
    ensures
        is_ranked(insert_ranked(s, e)),
        insert_ranked(s, e).len() == s.len() + 1,
        insert_ranked(s, e).to_multiset() == s.to_multiset().insert(e),
{
    let p = rank_position(s, e);
    lemma_rank_position(s, e);
    let r = insert_ranked(s, e);
    assert forall|i: int, j: int| 0 <= i < j < r.len() implies entry_key(#[trigger] r[i])
        >= entry_key(#[trigger] r[j]) by {
        if j < p {
        } else if j == p {
            assert(r[j] == e);
        } else if i < p {
            assert(r[j] == s[j - 1]);
            if p < s.len() {
                assert(entry_key(s[p]) >= entry_key(s[j - 1]) || p == j - 1);
            }
        } else if i == p {
            assert(r[i] == e);
            assert(r[j] == s[j - 1]);
            assert(entry_key(s[p]) >= entry_key(s[j - 1]) || p == j - 1);
        } else {
            assert(r[i] == s[i - 1]);
            assert(r[j] == s[j - 1]);
        }
    }
}

/// The ranking is ordered by cost and holds exactly the input's entries.
pub proof fn lemma_ranked(s: Seq<CostEntry>)
    ensures
        is_ranked(ranked(s)),
        ranked(s).len() == s.len(),
        ranked(s).to_multiset() == s.to_multiset(),
    decreases s.len(),
{
    if s.len() > 0 {
        lemma_ranked(s.drop_last());
        lemma_insert_ranked(ranked(s.drop_last()), s.last());
        assert(s.drop_last().push(s.last()) =~= s);
    }
}

/// Ranking a list that is already ordered by cost leaves it unchanged.
pub proof fn lemma_ranked_fixed(s: Seq<CostEntry>)
    requires
        is_ranked(s),
    ensures
        ranked(s) == s,
    decreases s.len(),
{
    if s.len() > 0 {
        let d = s.drop_last();
        assert(is_ranked(d));
        lemma_ranked_fixed(d);
        lemma_rank_position(d, s.last());
        lemma_rank_position_at(d, s.last(), d.len() as int);
        assert(d.insert(d.len() as int, s.last()) =~= s);
    }
}

/// Taking the top entries yields `min(n, len)` entries ordered by cost.
pub proof fn lemma_top_entries_shape(s: Seq<CostEntry>, n: nat)
    ensures
        top_entries(s, n).len() == if n <= s.len() { n } else { s.len() },
        is_ranked(top_entries(s, n)),
{
    lemma_ranked(s);
}

/// Ranking the top entries again changes nothing.
pub proof fn lemma_top_entries_idempotent(s: Seq<CostEntry>, n: nat)
    ensures
        top_entries(top_entries(s, n), n) == top_entries(s, n),
{
    let t = top_entries(s, n);
    lemma_top_entries_shape(s, n);
    lemma_ranked_fixed(t);
    assert(t.take(t.len() as int) =~= t);
}

proof fn lemma_total_remove(s: Seq<CostEntry>, j: int)
    requires
        0 <= j < s.len(),
    ensures
        total_units(s) == total_units(s.remove(j)) + entry_key(s[j]),
    decreases s.len(),
{
    if j == s.len() - 1 {
        assert(s.remove(j) =~= s.drop_last());
    } else {
        lemma_total_remove(s.drop_last(), j);
        assert(s.remove(j).drop_last() =~= s.drop_last().remove(j));
        assert(s.remove(j).last() == s.last());
    }
}

/// The total of no entries is zero.
pub proof fn lemma_total_empty()
    ensures
        total_units(Seq::<CostEntry>::empty()) == 0,
{
}

/// The total does not depend on the order of the entries.
pub proof fn lemma_total_reorder(s1: Seq<CostEntry>, s2: Seq<CostEntry>)
    requires
        s1.to_multiset() == s2.to_multiset(),
    ensures
        total_units(s1) == total_units(s2),
    decreases s1.len(),
{
    broadcast use vstd::multiset::group_multiset_axioms;

    if s1.len() == 0 {
        assert(s2.len() == s2.to_multiset().len());
    } else {
        let x = s1.last();
        let d = s1.drop_last();
        assert(d.push(x) =~= s1);
        assert(s2.to_multiset().count(x) > 0);
        assert(s2.contains(x));
        let j = choose|j: int| 0 <= j < s2.len() && s2[j] == x;
        assert(s2.remove(j).to_multiset() =~= d.to_multiset());
        lemma_total_reorder(d, s2.remove(j));
        lemma_total_remove(s2, j);
    }
}

pub fn entry_cost(e: &CostEntry) -> (r: i64)
    ensures
        r as int == entry_key(*e),
{
    match e.amount {
        Some(a) => a.units,
        None => 0,
    }
}

/// Sums the costs of all entries (an entry without a cost adds nothing).
/// Returns `None` when the sum does not fit in an [`Amount`].
pub fn compute_total(entries: &Vec<CostEntry>) -> (r: Option<Amount>)
    ensures
        match r {
            Some(t) => t.units as int == total_units(entries@),
            None => total_units(entries@) < i64::MIN || total_units(entries@) > i64::MAX,
        },
{
    let mut acc: i128 = 0;
    let mut i: usize = 0;
    while i < entries.len()
        invariant
            i <= entries@.len(),
            acc as int == total_units(entries@.take(i as int)),
            -(i as int) * 9_223_372_036_854_775_808 <= acc <= (i as int) * 9_223_372_036_854_775_808,
        decreases entries@.len() - i,
    {
        proof {
            assert(entries@.take(i + 1).drop_last() =~= entries@.take(i as int));
        }
        acc = acc + entry_cost(&entries[i]) as i128;
        i = i + 1;
    }
    proof {
        assert(entries@.take(i as int) =~= entries@);
    }
    if acc < -9_223_372_036_854_775_808i128 || acc > 9_223_372_036_854_775_807i128 {
        None
    } else {
        Some(Amount { units: acc as i64 })
    }
}

/// Sorts the entries by cost, highest first, keeping the input order among equal
/// costs, and returns the first `n` of them.
pub fn rank_top(entries: Vec<CostEntry>, n: usize) -> (r: Vec<CostEntry>)
    ensures
        r@ == top_entries(entries@, n as nat),
{
    let ghost input = entries@;
    let input_len = entries.len();
    proof {
        assert(input.take(0) =~= Seq::<CostEntry>::empty());
        assert(input.skip(0) =~= input);
    }
    let mut rest = entries;
    let mut sorted: Vec<CostEntry> = Vec::new();
    let mut i: usize = 0;
    while rest.len() > 0
        invariant
            i <= input.len(),
            input.len() == input_len,
            rest@ == input.skip(i as int),
            sorted@ == ranked(input.take(i as int)),
            is_ranked(sorted@),
            sorted@.len() == i,
        decreases rest@.len(),
    {
        let e = rest.remove(0);
        proof {
            assert(e == input[i as int]);
            assert(input.skip(i as int).remove(0) =~= input.skip(i + 1));
        }
        let key = entry_cost(&e);
        let mut p: usize = 0;
        while p < sorted.len() && entry_cost(&sorted[p]) >= key
            invariant
                p <= sorted@.len(),
                key as int == entry_key(e),
                forall|j: int| 0 <= j < p ==> entry_key(#[trigger] sorted@[j]) >= entry_key(e),
            decreases sorted@.len() - p,
        {
            p = p + 1;
        }
        proof {
            lemma_rank_position_at(sorted@, e, p as int);
            lemma_insert_ranked(sorted@, e);
            assert(input.take(i + 1).drop_last() =~= input.take(i as int));
        }
        sorted.insert(p, e);
        i = i + 1;
    }
    proof {
        assert(input.take(i as int) =~= input);
    }
    let count: usize = if n <= sorted.len() { n } else { sorted.len() };
    sorted.truncate(count);
    sorted
}

} // verus!
