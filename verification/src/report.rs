//! What is reported of a round: its counts, its highest bet and cashout, and the statistics
//! of the rounds in memory.

use vstd::prelude::*;
use crate::double::{Double, FIVE, THREE, TWO};
use crate::state::RoundResult;

verus! {

/// The number of rounds from which on there are statistics.
pub const STATS_FROM: usize = 3;

/// The number of past rounds that are listed.
pub const RECENT: usize = 15;

/// How high a round went: below two, below five, or higher.
#[derive(Clone, Copy, Debug, PartialEq, Eq, Structural)]
pub enum Band {
    Low,
    Middle,
    High,
}

/// The statistics of the rounds in memory.
#[derive(Debug)]
pub struct Stats {
    pub rounds: usize,
    pub q1: Double,
    pub median: Double,
    pub q3: Double,
    pub below_two: usize,
    pub below_three: usize,
    pub recent: Vec<(Double, Band)>,
}

/// How many bets and cashouts a round has had.
#[derive(Debug)]
pub struct Tally {
    pub normal_bets: usize,
    pub normal_cashouts: usize,
    pub leaked_bets: usize,
    pub leaked_cashouts: usize,
    pub all_bets: u128,
    pub all_cashouts: u128,
}

/// What is reported of a round. The highest bet and cashout are given by their positions.
#[derive(Debug)]
pub struct Report {
    pub tally: Tally,
    pub top_bet: Option<usize>,
    pub top_cashout: Option<usize>,
    pub stats: Option<Stats>,
}

/// Whether none of the numbers in `s` is missing.
pub open spec fn no_nan(s: Seq<Double>) -> bool {
    forall|i: int| 0 <= i < s.len() ==> !(#[trigger] s[i]).is_nan()
}

/// Whether numbers can be compared with each other: none is missing, or there is but one.
pub open spec fn comparable(s: Seq<Double>) -> bool {
    s.len() >= 2 ==> no_nan(s)
}

/// Whether `s[i]` is the highest number in `s`, and the last one of that height.
pub open spec fn is_top(s: Seq<Double>, i: int) -> bool {
    &&& 0 <= i < s.len()
    &&& forall|j: int| 0 <= j < s.len() ==> (#[trigger] s[j]).value() <= s[i].value()
    &&& forall|j: int| i < j < s.len() ==> (#[trigger] s[j]).value() < s[i].value()
}

/// The position that `r` gives is that of the highest number in `s`, if there is any.
pub open spec fn is_top_of(s: Seq<Double>, r: Option<usize>) -> bool {
    match r {
        Some(i) => is_top(s, i as int),
        None => s.len() == 0,
    }
}

/// Whether `s` goes up from each number to the next, or stays.
pub open spec fn is_rising(s: Seq<Double>) -> bool {
    forall|i: int, j: int| 0 <= i <= j < s.len() ==> (#[trigger] s[i]).value() <= (
    #[trigger] s[j]).value()
}

/// The numbers in `s` with the value `x`.
pub open spec fn with_value(s: Seq<Double>, x: int) -> Seq<Double> {
    s.filter(|d: Double| d.value() == x)
}

/// Whether `s` holds the numbers of `h` in rising order, and encodings of the same number in
/// the order that they have in `h`.
pub open spec fn is_arrangement(h: Seq<Double>, s: Seq<Double>) -> bool {
    &&& is_rising(s)
    &&& s.to_multiset() == h.to_multiset()
    &&& forall|x: int| #[trigger] with_value(s, x) == with_value(h, x)
}

/// How many of the numbers in `s` lie below `bound`.
pub open spec fn count_below(s: Seq<Double>, bound: Double) -> nat {
    s.filter(|d: Double| d.is_below(bound)).len()
}

/// How high a round went that crashed at `d`.
pub open spec fn band_of(d: Double) -> Band {
    if d.is_below(Double { bits: TWO }) {
        Band::Low
    } else if d.is_below(Double { bits: FIVE }) {
        Band::Middle
    } else {
        Band::High
    }
}

/// The last rounds of `h`, the latest first.
pub open spec fn recent_of(h: Seq<Double>) -> Seq<(Double, Band)> {
    Seq::new(
        if h.len() < RECENT {
            h.len()
        } else {
            RECENT as nat
        },
        |i: int| (h[h.len() - 1 - i], band_of(h[h.len() - 1 - i])),
    )
}

/// Whether `r` holds the statistics of `h`: the quarters are taken at a quarter, a half and
/// three quarters of the way through the numbers in rising order.
pub open spec fn is_stats(h: Seq<Double>, r: Stats) -> bool {
    let n = h.len() as int;
    &&& r.rounds == n
    &&& exists|s: Seq<Double>|
        #[trigger] is_arrangement(h, s) && r.q1 == s[n / 4] && r.median == s[n / 2] && r.q3 == s[3
            * n / 4]
    &&& r.below_two == count_below(h, Double { bits: TWO })
    &&& r.below_three == count_below(h, Double { bits: THREE })
    &&& r.recent@ == recent_of(h)
}

/// Finds the highest of some numbers; of equally high ones, the last.
pub fn top_index(s: &Vec<Double>) -> (r: Option<usize>)
    requires
        comparable(s@),
    ensures
        is_top_of(s@, r),
{
    if s.len() == 0 {
        return None;
    }
    let mut best: usize = 0;
    let mut i: usize = 1;
    while i < s.len()
        invariant
            comparable(s@),
            best < i <= s.len(),
            is_top(s@.take(i as int), best as int),
        decreases s.len() - i,
    {
        let ghost before = s@.take(i as int);
        let ghost now = s@.take(i + 1);
        let lower = s[i].below(s[best]);
        assert(before[best as int] == s[best as int]);
        assert forall|j: int| 0 <= j < i implies #[trigger] now[j] == before[j] by {}
        assert(now[i as int] == s[i as int]);
        assert(lower == (s[i as int].value() < s[best as int].value()));
        if !lower {
            best = i;
        }
        i += 1;
    }
    assert(s@.take(i as int) == s@);
    Some(best)
}

/// Putting `d` behind the numbers that are not above it keeps an arrangement.
proof fn lemma_insert(h: Seq<Double>, s: Seq<Double>, d: Double, k: int)
    requires
        is_arrangement(h, s),
        0 <= k <= s.len(),
        forall|j: int| 0 <= j < k ==> (#[trigger] s[j]).value() <= d.value(),
        forall|j: int| k <= j < s.len() ==> (#[trigger] s[j]).value() > d.value(),
    ensures
        is_arrangement(h.push(d), s.insert(k, d)),
{
    let t = s.insert(k, d);
    let a = s.take(k);
    let b = s.skip(k);
    assert(s == a + b);
    assert(t == a.push(d) + b);
    assert(is_rising(t)) by {
        assert forall|i: int, j: int| 0 <= i <= j < t.len() implies (#[trigger] t[i]).value() <= (
        #[trigger] t[j]).value() by {
            let si = if i < k {
                s[i]
            } else {
                s[i - 1]
            };
            let sj = if j < k {
                s[j]
            } else {
                s[j - 1]
            };
        }
    }
    vstd::seq_lib::to_multiset_insert(s, k, d);
    vstd::seq_lib::to_multiset_build(h, d);
    assert forall|x: int| #[trigger] with_value(t, x) == with_value(h.push(d), x) by {
        let p = |e: Double| e.value() == x;
        h.lemma_filter_push(d, p);
        a.lemma_filter_push(d, p);
        Seq::filter_distributes_over_add(a.push(d), b, p);
        Seq::filter_distributes_over_add(a, b, p);
        assert(with_value(s, x) == with_value(h, x));
        if d.value() == x {
            assert forall|j: int| 0 <= j < b.len() implies !p(#[trigger] b[j]) by {
                assert(b[j] == s[k + j]);
            }
            b.lemma_all_neg_filter_empty(p);
            assert(b.filter(p) == Seq::<Double>::empty());
        }
        assert(t.filter(p) =~= h.push(d).filter(p));
    }
}

/// Puts numbers in rising order, keeping the order of equal ones.
fn sort(h: &Vec<Double>) -> (r: Vec<Double>)
    requires
        no_nan(h@),
    ensures
        is_arrangement(h@, r@),
        r.len() == h.len(),
{
    let mut r: Vec<Double> = Vec::new();
    let mut i: usize = 0;
    proof {
        reveal(Seq::filter);
        assert(h@.take(0) == Seq::<Double>::empty());
    }
    while i < h.len()
        invariant
            no_nan(h@),
            i <= h.len(),
            r.len() == i,
            no_nan(r@),
            is_arrangement(h@.take(i as int), r@),
        decreases h.len() - i,
    {
        let d = h[i];
        let mut k: usize = r.len();
        while k > 0 && d.below(r[k - 1])
            invariant
                k <= r.len(),
                !d.is_nan(),
                no_nan(r@),
                forall|j: int| k <= j < r.len() ==> (#[trigger] r[j]).value() > d.value(),
            decreases k,
        {
            k -= 1;
        }
        proof {
            assert(k > 0 ==> r[k - 1].value() <= d.value());
            assert forall|j: int| 0 <= j < k implies (#[trigger] r[j]).value() <= d.value() by {
                assert(r[j].value() <= r[k - 1].value());
            }
            lemma_insert(h@.take(i as int), r@, d, k as int);
            assert(h@.take(i as int).push(d) == h@.take(i + 1));
        }
        let ghost r0 = r@;
        r.insert(k, d);
        assert(no_nan(r@)) by {
            assert forall|j: int| 0 <= j < r.len() implies !(#[trigger] r[j]).is_nan() by {
                if j < k {
                    assert(r[j] == r0[j]);
                } else if j > k {
                    assert(r[j] == r0[j - 1]);
                }
            }
        }
        i += 1;
    }
    assert(h@.take(i as int) == h@);
    r
}

/// Counts the numbers that lie below `bound`.
fn count(h: &Vec<Double>, bound: Double) -> (r: usize)
    ensures
        r == count_below(h@, bound),
{
    let ghost p = |d: Double| d.is_below(bound);
    let mut r: usize = 0;
    let mut i: usize = 0;
    proof {
        reveal(Seq::filter);
        assert(h@.take(0) == Seq::<Double>::empty());
    }
    while i < h.len()
        invariant
            i <= h.len(),
            p == (|d: Double| d.is_below(bound)),
            r <= i,
            r == h@.take(i as int).filter(p).len(),
        decreases h.len() - i,
    {
        proof {
            h@.take(i as int).lemma_filter_push(h[i as int], p);
            assert(h@.take(i as int).push(h[i as int]) == h@.take(i + 1));
        }
        if h[i].below(bound) {
            r += 1;
        }
        i += 1;
    }
    assert(h@.take(i as int) == h@);
    r
}

/// Tells how high a round went.
pub fn band(d: Double) -> (r: Band)
    ensures
        r == band_of(d),
{
    if d.below(Double { bits: TWO }) {
        Band::Low
    } else if d.below(Double { bits: FIVE }) {
        Band::Middle
    } else {
        Band::High
    }
}

/// Lists the last rounds, the latest first.
pub fn recent(h: &Vec<Double>) -> (r: Vec<(Double, Band)>)
    ensures
        r@ == recent_of(h@),
{
    let n: usize = h.len();
    let shown: usize = if n < RECENT {
        n
    } else {
        RECENT
    };
    let mut r: Vec<(Double, Band)> = Vec::new();
    let mut i: usize = 0;
    while i < shown
        invariant
            n == h.len(),
            i <= shown <= n,
            shown == recent_of(h@).len(),
            r@ == recent_of(h@).take(i as int),
        decreases shown - i,
    {
        let d = h[n - 1 - i];
        r.push((d, band(d)));
        assert(r@ =~= recent_of(h@).take(i + 1));
        i += 1;
    }
    assert(recent_of(h@).take(shown as int) == recent_of(h@));
    r
}

/// Computes the statistics of the rounds in memory, if there are enough of them.
pub fn stats(h: &Vec<Double>) -> (r: Option<Stats>)
    requires
        h.len() >= STATS_FROM ==> no_nan(h@),
    ensures
        match r {
            Some(st) => h.len() >= STATS_FROM && is_stats(h@, st),
            None => h.len() < STATS_FROM,
        },
{
    let n: usize = h.len();
    if n < STATS_FROM {
        return None;
    }
    let s = sort(h);
    let quarter: usize = n / 4;
    let last_quarter: usize = if n % 4 == 0 {
        quarter
    } else {
        quarter + 1
    };
    assert(3 * n / 4 == n - last_quarter);
    let r = Stats {
        rounds: n,
        q1: s[quarter],
        median: s[n / 2],
        q3: s[n - last_quarter],
        below_two: count(h, Double { bits: TWO }),
        below_three: count(h, Double { bits: THREE }),
        recent: recent(h),
    };
    assert(is_arrangement(h@, s@));
    Some(r)
}

/// Whether `t` counts the bets and cashouts of a round.
pub open spec fn is_tally(result: crate::state::ResultView, t: Tally) -> bool {
    &&& t.normal_bets == result.normal_bets.len()
    &&& t.normal_cashouts == result.normal_cashouts.len()
    &&& t.leaked_bets == result.leaked_bets.len()
    &&& t.leaked_cashouts == result.leaked_cashouts.len()
    &&& t.all_bets == result.normal_bets.len() + result.leaked_bets.len()
    &&& t.all_cashouts == result.normal_cashouts.len() + result.leaked_cashouts.len()
}

/// Counts the bets and cashouts of a round.
pub fn tally(result: &RoundResult) -> (r: Tally)
    ensures
        is_tally(result@, r),
        r.normal_bets == result.normal_bets@.len(),
        r.normal_cashouts == result.normal_cashouts@.len(),
        r.leaked_bets == result.leaked_bets@.len(),
        r.leaked_cashouts == result.leaked_cashouts@.len(),
        r.all_bets == r.normal_bets + r.leaked_bets,
        r.all_cashouts == r.normal_cashouts + r.leaked_cashouts,
{
    Tally {
        normal_bets: result.normal_bets.len(),
        normal_cashouts: result.normal_cashouts.len(),
        leaked_bets: result.leaked_bets.len(),
        leaked_cashouts: result.leaked_cashouts.len(),
        all_bets: result.normal_bets.len() as u128 + result.leaked_bets.len() as u128,
        all_cashouts: result.normal_cashouts.len() as u128 + result.leaked_cashouts.len() as u128,
    }
}

/// Computes what is reported of a round, given the numbers that its bets and cashouts stand
/// for, and the rounds in memory.
pub fn report(
    result: &RoundResult,
    bets: &Vec<Double>,
    cashouts: &Vec<Double>,
    history: &Vec<Double>,
) -> (r: Report)
    requires
        bets.len() == result.normal_bets.len(),
        cashouts.len() == result.normal_cashouts.len(),
        comparable(bets@),
        comparable(cashouts@),
        history.len() >= STATS_FROM ==> no_nan(history@),
    ensures
        is_tally(result@, r.tally),
        r.tally.all_bets == r.tally.normal_bets + r.tally.leaked_bets,
        r.tally.all_cashouts == r.tally.normal_cashouts + r.tally.leaked_cashouts,
        is_top_of(bets@, r.top_bet),
        is_top_of(cashouts@, r.top_cashout),
        match r.stats {
            Some(st) => history.len() >= STATS_FROM && is_stats(history@, st),
            None => history.len() < STATS_FROM,
        },
{
    Report {
        tally: tally(result),
        top_bet: top_index(bets),
        top_cashout: top_index(cashouts),
        stats: stats(history),
    }
}

/// How many of the numbers in `s` lie from `low` to `high`.
pub open spec fn count_within(s: Seq<Double>, low: int, high: int) -> nat {
    s.filter(|d: Double| low <= d.value() <= high).len()
}

/// How many of the numbers in `s` lie at `bound` or below.
pub open spec fn count_up_to(s: Seq<Double>, bound: int) -> nat {
    s.filter(|d: Double| d.value() <= bound).len()
}

/// How many of the numbers in `s` lie under `bound`.
pub open spec fn count_under(s: Seq<Double>, bound: int) -> nat {
    s.filter(|d: Double| d.value() < bound).len()
}

/// A filter lets the same numbers through, whatever their order.
proof fn lemma_same_count(s: Seq<Double>, t: Seq<Double>, p: spec_fn(Double) -> bool)
    requires
        s.to_multiset() == t.to_multiset(),
    ensures
        s.filter(p).len() == t.filter(p).len(),
    decreases s.len(),
{
    vstd::seq_lib::to_multiset_len(s);
    vstd::seq_lib::to_multiset_len(t);
    if s.len() > 0 {
        let d = s.last();
        let front = s.drop_last();
        assert(front.push(d) =~= s);
        vstd::seq_lib::to_multiset_contains(s, d);
        vstd::seq_lib::to_multiset_contains(t, d);
        let j = choose|j: int| 0 <= j < t.len() && t[j] == d;
        let a = t.take(j);
        let b = t.skip(j + 1);
        assert(t =~= a.push(d) + b);
        assert(t.remove(j) =~= a + b);
        assert(s.remove(s.len() - 1) =~= front);
        vstd::seq_lib::to_multiset_remove(t, j);
        vstd::seq_lib::to_multiset_remove(s, s.len() - 1);
        lemma_same_count(front, a + b, p);
        front.lemma_filter_push(d, p);
        a.lemma_filter_push(d, p);
        Seq::filter_distributes_over_add(a.push(d), b, p);
        Seq::filter_distributes_over_add(a, b, p);
    } else {
        assert(s =~= t);
    }
}

/// A filter that lets all of `s` through.
proof fn lemma_all_pass(s: Seq<Double>, p: spec_fn(Double) -> bool)
    requires
        forall|i: int| 0 <= i < s.len() ==> p(#[trigger] s[i]),
    ensures
        s.filter(p) == s,
    decreases s.len(),
{
    reveal(Seq::filter);
    if s.len() > 0 {
        let front = s.drop_last();
        assert forall|i: int| 0 <= i < front.len() implies p(#[trigger] front[i]) by {
            assert(front[i] == s[i]);
        }
        lemma_all_pass(front, p);
        assert(p(s[s.len() - 1]));
        assert(front.push(s.last()) =~= s);
    } else {
        assert(s.filter(p) =~= s);
    }
}

/// There is only one way to arrange some numbers in rising order and to keep the order of
/// equal ones.
pub proof fn lemma_arrangement_unique(h: Seq<Double>, s: Seq<Double>, t: Seq<Double>)
    requires
        is_arrangement(h, s),
        is_arrangement(h, t),
    ensures
        s == t,
{
    assert forall|x: int| #[trigger] with_value(s, x) == with_value(t, x) by {
        assert(with_value(s, x) == with_value(h, x));
    }
    lemma_rising_unique(s, t);
}

proof fn lemma_rising_unique(s: Seq<Double>, t: Seq<Double>)
    requires
        is_rising(s),
        is_rising(t),
        s.to_multiset() == t.to_multiset(),
        forall|x: int| #[trigger] with_value(s, x) == with_value(t, x),
    ensures
        s == t,
    decreases s.len(),
{
    vstd::seq_lib::to_multiset_len(s);
    vstd::seq_lib::to_multiset_len(t);
    if s.len() > 0 {
        let (a, d) = (s.drop_last(), s.last());
        let (b, e) = (t.drop_last(), t.last());
        assert(a.push(d) =~= s);
        assert(b.push(e) =~= t);
        vstd::seq_lib::to_multiset_contains(s, d);
        vstd::seq_lib::to_multiset_contains(t, d);
        vstd::seq_lib::to_multiset_contains(s, e);
        vstd::seq_lib::to_multiset_contains(t, e);
        let i = choose|i: int| 0 <= i < s.len() && s[i] == e;
        let j = choose|j: int| 0 <= j < t.len() && t[j] == d;
        assert(s[i].value() <= s[s.len() - 1].value());
        assert(t[j].value() <= t[t.len() - 1].value());
        let x = d.value();
        assert(e.value() == x);
        let p = |c: Double| c.value() == x;
        a.lemma_filter_push(d, p);
        b.lemma_filter_push(e, p);
        assert(with_value(s, x).last() == d);
        assert(with_value(t, x).last() == e);
        assert(d == e);
        assert(s.remove(s.len() - 1) =~= a);
        assert(t.remove(t.len() - 1) =~= b);
        vstd::seq_lib::to_multiset_remove(s, s.len() - 1);
        vstd::seq_lib::to_multiset_remove(t, t.len() - 1);
        assert forall|y: int| #[trigger] with_value(a, y) == with_value(b, y) by {
            let q = |c: Double| c.value() == y;
            a.lemma_filter_push(d, q);
            b.lemma_filter_push(d, q);
            assert(with_value(s, y) == with_value(t, y));
            if d.value() == y {
                assert(with_value(a, y) =~= with_value(s, y).drop_last());
                assert(with_value(b, y) =~= with_value(t, y).drop_last());
            }
        }
        assert(is_rising(a)) by {
            assert forall|m: int, n: int| 0 <= m <= n < a.len() implies (
            #[trigger] a[m]).value() <= (#[trigger] a[n]).value() by {
                assert(a[m] == s[m] && a[n] == s[n]);
            }
        }
        assert(is_rising(b)) by {
            assert forall|m: int, n: int| 0 <= m <= n < b.len() implies (
            #[trigger] b[m]).value() <= (#[trigger] b[n]).value() by {
                assert(b[m] == t[m] && b[n] == t[n]);
            }
        }
        lemma_rising_unique(a, b);
    } else {
        assert(s =~= t);
    }
}

/// Of the numbers in rising order, at most `i` lie under the one at position `i`, and more
/// than `i` lie at it or below.
pub proof fn lemma_position(h: Seq<Double>, s: Seq<Double>, i: int)
    requires
        is_arrangement(h, s),
        0 <= i < s.len(),
    ensures
        count_under(h, s[i].value()) <= i,
        count_up_to(h, s[i].value()) >= i + 1,
{
    let x = s[i].value();
    let under = |d: Double| d.value() < x;
    let up_to = |d: Double| d.value() <= x;
    lemma_same_count(h, s, under);
    lemma_same_count(h, s, up_to);
    let a = s.take(i);
    let b = s.skip(i);
    assert(s =~= a + b);
    Seq::filter_distributes_over_add(a, b, under);
    assert forall|k: int| 0 <= k < b.len() implies !under(#[trigger] b[k]) by {
        assert(b[k] == s[i + k]);
    }
    b.lemma_all_neg_filter_empty(under);
    a.lemma_filter_len(under);
    let c = s.take(i + 1);
    let e = s.skip(i + 1);
    assert(s =~= c + e);
    Seq::filter_distributes_over_add(c, e, up_to);
    assert forall|k: int| 0 <= k < c.len() implies up_to(#[trigger] c[k]) by {
        assert(c[k] == s[k]);
        assert(s[k].value() <= s[i].value());
    }
    lemma_all_pass(c, up_to);
}

/// The quarters are rounds in memory, in rising order, and at least half of the rounds in
/// memory lie from the first to the third.
pub proof fn lemma_quarters(h: Seq<Double>, r: Stats)
    requires
        h.len() >= STATS_FROM,
        is_stats(h, r),
    ensures
        h.contains(r.q1),
        h.contains(r.median),
        h.contains(r.q3),
        r.q1.value() <= r.median.value() <= r.q3.value(),
        2 * count_within(h, r.q1.value(), r.q3.value()) >= h.len(),
{
    let n = h.len() as int;
    let s = choose|s: Seq<Double>|
        #[trigger] is_arrangement(h, s) && r.q1 == s[n / 4] && r.median == s[n / 2] && r.q3 == s[3
            * n / 4];
    vstd::seq_lib::to_multiset_len(h);
    vstd::seq_lib::to_multiset_len(s);
    vstd::seq_lib::to_multiset_contains(h, r.q1);
    vstd::seq_lib::to_multiset_contains(s, r.q1);
    vstd::seq_lib::to_multiset_contains(h, r.median);
    vstd::seq_lib::to_multiset_contains(s, r.median);
    vstd::seq_lib::to_multiset_contains(h, r.q3);
    vstd::seq_lib::to_multiset_contains(s, r.q3);
    assert(s[n / 4].value() <= s[n / 2].value() <= s[3 * n / 4].value());
    let (low, high) = (r.q1.value(), r.q3.value());
    let within = |d: Double| low <= d.value() <= high;
    lemma_same_count(h, s, within);
    let a = s.take(n / 4);
    let b = s.subrange(n / 4, 3 * n / 4 + 1);
    let c = s.skip(3 * n / 4 + 1);
    assert(s =~= (a + b) + c);
    Seq::filter_distributes_over_add(a + b, c, within);
    Seq::filter_distributes_over_add(a, b, within);
    assert forall|k: int| 0 <= k < b.len() implies within(#[trigger] b[k]) by {
        assert(b[k] == s[n / 4 + k]);
        assert(s[n / 4].value() <= s[n / 4 + k].value() <= s[3 * n / 4].value());
    }
    lemma_all_pass(b, within);
}

/// A filter that lets more through counts more.
proof fn lemma_weaker_counts_more(
    s: Seq<Double>,
    p: spec_fn(Double) -> bool,
    q: spec_fn(Double) -> bool,
)
    requires
        forall|d: Double| #[trigger] p(d) ==> q(d),
    ensures
        s.filter(p).len() <= s.filter(q).len(),
    decreases s.len(),
{
    reveal(Seq::filter);
    if s.len() > 0 {
        let front = s.drop_last();
        lemma_weaker_counts_more(front, p, q);
        front.lemma_filter_push(s.last(), p);
        front.lemma_filter_push(s.last(), q);
        assert(front.push(s.last()) =~= s);
    }
}

/// Arrangements of the same numbers have the same number at each position.
proof fn lemma_same_values(
    h: Seq<Double>,
    g: Seq<Double>,
    s: Seq<Double>,
    t: Seq<Double>,
    i: int,
)
    requires
        h.to_multiset() == g.to_multiset(),
        is_arrangement(h, s),
        is_arrangement(g, t),
        0 <= i < s.len(),
        0 <= i < t.len(),
    ensures
        t[i].value() <= s[i].value(),
{
    let (x, y) = (s[i].value(), t[i].value());
    lemma_position(h, s, i);
    lemma_position(g, t, i);
    let under = |d: Double| d.value() < y;
    let up_to = |d: Double| d.value() <= x;
    lemma_same_count(h, g, up_to);
    if x < y {
        lemma_weaker_counts_more(g, up_to, under);
        assert(count_up_to(h, x) == h.filter(up_to).len());
        assert(count_under(g, y) == g.filter(under).len());
    }
}

/// The statistics do not depend on the order of the rounds, but for the list of the last
/// ones: the quarters are the same numbers, and the counts are the same.
pub proof fn lemma_order_does_not_matter(h: Seq<Double>, g: Seq<Double>, r: Stats, q: Stats)
    requires
        h.len() >= STATS_FROM,
        h.to_multiset() == g.to_multiset(),
        is_stats(h, r),
        is_stats(g, q),
    ensures
        r.rounds == q.rounds,
        r.q1.value() == q.q1.value(),
        r.median.value() == q.median.value(),
        r.q3.value() == q.q3.value(),
        r.below_two == q.below_two,
        r.below_three == q.below_three,
{
    vstd::seq_lib::to_multiset_len(h);
    vstd::seq_lib::to_multiset_len(g);
    let n = h.len() as int;
    let s = choose|s: Seq<Double>|
        #[trigger] is_arrangement(h, s) && r.q1 == s[n / 4] && r.median == s[n / 2] && r.q3 == s[3
            * n / 4];
    let t = choose|t: Seq<Double>|
        #[trigger] is_arrangement(g, t) && q.q1 == t[n / 4] && q.median == t[n / 2] && q.q3 == t[3
            * n / 4];
    vstd::seq_lib::to_multiset_len(s);
    vstd::seq_lib::to_multiset_len(t);
    lemma_same_values(h, g, s, t, n / 4);
    lemma_same_values(g, h, t, s, n / 4);
    lemma_same_values(h, g, s, t, n / 2);
    lemma_same_values(g, h, t, s, n / 2);
    lemma_same_values(h, g, s, t, 3 * n / 4);
    lemma_same_values(g, h, t, s, 3 * n / 4);
    lemma_same_count(h, g, |d: Double| d.is_below(Double { bits: TWO }));
    lemma_same_count(h, g, |d: Double| d.is_below(Double { bits: THREE }));
}

/// Rounds below two are rounds below three, and these are rounds.
pub proof fn lemma_counts_nested(h: Seq<Double>)
    ensures
        count_below(h, Double { bits: TWO }) <= count_below(h, Double { bits: THREE }) <= h.len(),
    decreases h.len(),
{
    let p = |d: Double| d.is_below(Double { bits: TWO });
    let q = |d: Double| d.is_below(Double { bits: THREE });
    crate::double::lemma_named_values();
    reveal(Seq::filter);
    if h.len() > 0 {
        let front = h.drop_last();
        lemma_counts_nested(front);
        front.lemma_filter_push(h.last(), p);
        front.lemma_filter_push(h.last(), q);
        assert(front.push(h.last()) =~= h);
    }
}

/// The band of a round follows from the number that it crashed at: low below two, high from
/// five on, and in the middle otherwise.
pub proof fn lemma_bands(d: Double)
    requires
        !d.is_nan(),
    ensures
        band_of(d) == Band::Low <==> d.value() < 2 * crate::double::unit(),
        band_of(d) == Band::High <==> d.value() >= 5 * crate::double::unit(),
{
    crate::double::lemma_named_values();
}

/// All bets of a round are its normal and its leaked ones, and all cashouts likewise.
pub proof fn lemma_tally_adds_up(result: crate::state::ResultView, t: Tally)
    requires
        is_tally(result, t),
    ensures
        t.all_bets == t.normal_bets + t.leaked_bets,
        t.all_cashouts == t.normal_cashouts + t.leaked_cashouts,
        t.all_bets == (result.normal_bets + result.leaked_bets).len(),
        t.all_cashouts == (result.normal_cashouts + result.leaked_cashouts).len(),
{
}

/// One more bet is counted once, among the normal or the leaked bets and among all bets, and
/// leaves the cashouts as they are.
pub proof fn lemma_one_more_bet(
    result: crate::state::ResultView,
    bet: crate::event::BetView,
    t: Tally,
    normal: Tally,
    leaked: Tally,
)
    requires
        is_tally(result, t),
        is_tally(
            (crate::state::ResultView { normal_bets: result.normal_bets.push(bet), ..result }),
            normal,
        ),
        is_tally(
            (crate::state::ResultView { leaked_bets: result.leaked_bets.push(bet), ..result }),
            leaked,
        ),
    ensures
        normal == (Tally {
            normal_bets: (t.normal_bets + 1) as usize,
            all_bets: (t.all_bets + 1) as u128,
            ..t
        }),
        leaked == (Tally {
            leaked_bets: (t.leaked_bets + 1) as usize,
            all_bets: (t.all_bets + 1) as u128,
            ..t
        }),
{
}

/// One more cashout is counted once, among the normal or the leaked cashouts and among all
/// cashouts, and leaves the bets as they are.
pub proof fn lemma_one_more_cashout(
    result: crate::state::ResultView,
    cashout: crate::event::CashoutView,
    t: Tally,
    normal: Tally,
    leaked: Tally,
)
    requires
        is_tally(result, t),
        is_tally(
            (crate::state::ResultView {
                normal_cashouts: result.normal_cashouts.push(cashout),
                ..result
            }),
            normal,
        ),
        is_tally(
            (crate::state::ResultView {
                leaked_cashouts: result.leaked_cashouts.push(cashout),
                ..result
            }),
            leaked,
        ),
    ensures
        normal == (Tally {
            normal_cashouts: (t.normal_cashouts + 1) as usize,
            all_cashouts: (t.all_cashouts + 1) as u128,
            ..t
        }),
        leaked == (Tally {
            leaked_cashouts: (t.leaked_cashouts + 1) as usize,
            all_cashouts: (t.all_cashouts + 1) as u128,
            ..t
        }),
{
}

/// A round without bets and cashouts counts none.
pub proof fn lemma_nothing_to_count(result: crate::state::ResultView, t: Tally)
    requires
        is_tally(result, t),
        result.normal_bets.len() + result.leaked_bets.len() == 0,
        result.normal_cashouts.len() + result.leaked_cashouts.len() == 0,
    ensures
        t.normal_bets == 0 && t.leaked_bets == 0 && t.all_bets == 0,
        t.normal_cashouts == 0 && t.leaked_cashouts == 0 && t.all_cashouts == 0,
{
}

/// Among no numbers there is no highest, and one number is the highest.
pub proof fn lemma_top_of_few(d: Double, none: Option<usize>, one: Option<usize>)
    requires
        is_top_of(Seq::empty(), none),
        is_top_of(seq![d], one),
    ensures
        none is None,
        one == Some(0usize),
{
}

/// One more number is the highest from then on if no other is higher, and leaves the highest
/// where it is otherwise.
pub proof fn lemma_top_of_more(s: Seq<Double>, d: Double, i: usize, r: Option<usize>)
    requires
        is_top_of(s, Some(i)),
        is_top_of(s.push(d), r),
    ensures
        i < s.len(),
        r == (if d.value() >= s[i as int].value() {
            Some(s.len() as usize)
        } else {
            Some(i)
        }),
{
    let t = s.push(d);
    let n = s.len() as int;
    assert(t[n] == d);
    assert(t[i as int] == s[i as int]);
    match r {
        Some(k) => {
            assert(t[k as int].value() >= t[n].value());
            assert(t[k as int].value() >= t[i as int].value());
            if k < n {
                assert(t[k as int] == s[k as int]);
                assert(s[k as int].value() <= s[i as int].value());
                assert(t[n].value() < t[k as int].value());
                if k < i {
                    assert(t[i as int].value() < t[k as int].value());
                }
                if i < k {
                    assert(s[k as int].value() < s[i as int].value());
                }
            }
        },
        None => {
            assert(t.len() == 0);
        },
    }
}

/// The quarters stand a quarter, a half and three quarters of the way up: at most that many
/// rounds lie under them, and more lie at them or below.
pub proof fn lemma_quarters_stand(h: Seq<Double>, r: Stats)
    requires
        h.len() >= STATS_FROM,
        is_stats(h, r),
    ensures
        r.rounds == h.len(),
        4 * count_under(h, r.q1.value()) <= h.len() < 4 * count_up_to(h, r.q1.value()),
        2 * count_under(h, r.median.value()) <= h.len() < 2 * count_up_to(h, r.median.value()),
        4 * count_under(h, r.q3.value()) <= 3 * h.len() < 4 * count_up_to(h, r.q3.value()),
{
    let n = h.len() as int;
    let s = choose|s: Seq<Double>|
        #[trigger] is_arrangement(h, s) && r.q1 == s[n / 4] && r.median == s[n / 2] && r.q3 == s[3
            * n / 4];
    vstd::seq_lib::to_multiset_len(h);
    vstd::seq_lib::to_multiset_len(s);
    lemma_position(h, s, n / 4);
    lemma_position(h, s, n / 2);
    lemma_position(h, s, 3 * n / 4);
}

/// The positions of the numbers in `s` that are smaller than `bound`.
pub open spec fn positions_under(s: Seq<Double>, bound: int) -> Set<int> {
    Set::new(|i: int| 0 <= i < s.len() && !s[i].is_nan() && s[i].value() < bound)
}

proof fn lemma_positions(s: Seq<Double>, bound: Double)
    requires
        !bound.is_nan(),
    ensures
        positions_under(s, bound.value()).finite(),
        positions_under(s, bound.value()).len() == count_below(s, bound),
    decreases s.len(),
{
    let p = |d: Double| d.is_below(bound);
    let all = positions_under(s, bound.value());
    if s.len() == 0 {
        reveal(Seq::filter);
        assert(all =~= Set::empty());
    } else {
        let front = s.drop_last();
        let before = positions_under(front, bound.value());
        let last = s.len() - 1;
        lemma_positions(front, bound);
        front.lemma_filter_push(s.last(), p);
        assert(front.push(s.last()) =~= s);
        assert forall|i: int| 0 <= i < front.len() implies front[i] == s[i] by {}
        if s.last().is_below(bound) {
            assert(all =~= before.insert(last));
        } else {
            assert(all =~= before);
        }
    }
}

/// The counts of low rounds are the numbers of rounds that crashed under two and under three.
pub proof fn lemma_low_rounds(h: Seq<Double>, r: Stats)
    requires
        is_stats(h, r),
    ensures
        positions_under(h, 2 * crate::double::unit() as int).finite(),
        positions_under(h, 3 * crate::double::unit() as int).finite(),
        r.below_two == positions_under(h, 2 * crate::double::unit() as int).len(),
        r.below_three == positions_under(h, 3 * crate::double::unit() as int).len(),
{
    crate::double::lemma_named_values();
    lemma_positions(h, Double { bits: TWO });
    lemma_positions(h, Double { bits: THREE });
}

/// The last rounds are listed from the latest on, fifteen of them or all there are, each with
/// its band.
pub proof fn lemma_recent(h: Seq<Double>, i: int)
    ensures
        recent_of(h).len() == (if h.len() < 15 {
            h.len()
        } else {
            15
        }),
        0 <= i < recent_of(h).len() ==> recent_of(h)[i] == (
            h[h.len() - 1 - i],
            band_of(h[h.len() - 1 - i]),
        ),
{
}

/// The statistics list the last rounds, and a round with fifteen others or more behind it makes
/// no difference to the list.
pub proof fn lemma_stats_list_recent(h: Seq<Double>, r: Stats)
    requires
        is_stats(h, r),
    ensures
        r.recent@ == recent_of(h),
        h.len() > 15 ==> r.recent@ == recent_of(h.drop_first()),
{
    if h.len() > 15 {
        assert(recent_of(h) =~= recent_of(h.drop_first()));
    }
}

/// A round that crashed at no number counts as a high one.
pub proof fn lemma_band_of_no_number(d: Double)
    requires
        d.is_nan(),
    ensures
        band_of(d) == Band::High,
{
}

/// Counting a round counts its lists: the normal and the leaked bets, the normal and the leaked
/// cashouts, and each pair together.
pub proof fn lemma_counted(result: RoundResult, t: Tally)
    requires
        call_ensures(tally, (&result,), t),
    ensures
        t.normal_bets == result.normal_bets.len(),
        t.leaked_bets == result.leaked_bets.len(),
        t.normal_cashouts == result.normal_cashouts.len(),
        t.leaked_cashouts == result.leaked_cashouts.len(),
        t.all_bets == result.normal_bets.len() + result.leaked_bets.len(),
        t.all_cashouts == result.normal_cashouts.len() + result.leaked_cashouts.len(),
{
}

/// A report gives the counts of the round, the positions of the highest bet and cashout, of
/// equally high ones the last, and the statistics that the rounds in memory have.
pub proof fn lemma_reported(
    result: RoundResult,
    bets: Vec<Double>,
    cashouts: Vec<Double>,
    history: Vec<Double>,
    r: Report,
    t: Tally,
)
    requires
        call_ensures(report, (&result, &bets, &cashouts, &history), r),
        call_ensures(tally, (&result,), t),
    ensures
        r.tally == t,
        r.top_bet is None <==> bets.len() == 0,
        r.top_bet matches Some(i) ==> i < bets.len() && forall|j: int|
            0 <= j < bets.len() ==> if j <= i {
                (#[trigger] bets[j]).value() <= bets[i as int].value()
            } else {
                bets[j].value() < bets[i as int].value()
            },
        r.top_cashout is None <==> cashouts.len() == 0,
        r.top_cashout matches Some(i) ==> i < cashouts.len() && forall|j: int|
            0 <= j < cashouts.len() ==> if j <= i {
                (#[trigger] cashouts[j]).value() <= cashouts[i as int].value()
            } else {
                cashouts[j].value() < cashouts[i as int].value()
            },
        r.stats is Some <==> history.len() >= 3,
        r.stats matches Some(st) ==> is_stats(history@, st),
{
}

/// The highest number is found where no other is higher, and behind it none is as high.
pub proof fn lemma_top_found(s: Vec<Double>, r: Option<usize>)
    requires
        call_ensures(top_index, (&s,), r),
    ensures
        r is None <==> s.len() == 0,
        r matches Some(i) ==> i < s.len() && forall|j: int|
            0 <= j < s.len() ==> if j <= i {
                (#[trigger] s[j]).value() <= s[i as int].value()
            } else {
                s[j].value() < s[i as int].value()
            },
{
}

/// There are statistics from three rounds on, and they are those of the rounds given.
pub proof fn lemma_stats_computed(h: Vec<Double>, r: Option<Stats>)
    requires
        call_ensures(stats, (&h,), r),
    ensures
        r is Some <==> h.len() >= 3,
        r matches Some(st) ==> is_stats(h@, st) && st.rounds == h.len(),
{
}

/// The list of the last rounds holds them latest first, each with the band that it is told to
/// be in.
pub proof fn lemma_recent_listed(h: Vec<Double>, r: Vec<(Double, Band)>, i: int, b: Band)
    requires
        call_ensures(recent, (&h,), r),
        0 <= i < r.len(),
        call_ensures(band, (r[i].0,), b),
    ensures
        r.len() <= h.len(),
        r.len() == h.len() || r.len() == 15,
        r.len() <= 15,
        r[i].0 == h[h.len() - 1 - i],
        r[i].1 == b,
        r[i].0.is_nan() ==> b is High,
        !r[i].0.is_nan() ==> (b is Low <==> r[i].0.value() < 2 * crate::double::unit()),
        !r[i].0.is_nan() ==> (b is High <==> r[i].0.value() >= 5 * crate::double::unit()),
{
    if !r[i].0.is_nan() {
        lemma_bands(r[i].0);
    }
}

} // verus!
