//! Comparative chart layout: global scale bounds over a result list,
//! proportional bar lengths, and grouping of consecutive results that share a
//! (scenario, concurrency) key.
//!
//! The scale maxima are taken over the entire list, not per group, so every
//! bar within one scenario is drawn to one comparable scale. Grouping relies
//! on the result list's adjacency guarantee: runs of one (scenario,
//! concurrency) pair stand next to each other.

use vstd::prelude::*;
use vstd::string::StringExecFns;
use vstd::arithmetic::mul::{lemma_mul_inequality, lemma_mul_upper_bound};
use vstd::arithmetic::div_mod::{lemma_div_is_ordered, lemma_div_multiples_vanish};

use crate::models::Results;

verus! {

/// The largest latency in the list, 0 for an empty list.
pub open spec fn max_lat(s: Seq<Results>) -> nat
    decreases s.len(),
{
    if s.len() == 0 {
        0
    } else {
        let m = max_lat(s.drop_last());
        if s.last().wrk_stats.latency_ns >= m {
            s.last().wrk_stats.latency_ns as nat
        } else {
            m
        }
    }
}

/// The largest requests-per-second figure in the list, 0 for an empty list.
pub open spec fn max_rps(s: Seq<Results>) -> nat
    decreases s.len(),
{
    if s.len() == 0 {
        0
    } else {
        let m = max_rps(s.drop_last());
        if s.last().wrk_stats.rps >= m {
            s.last().wrk_stats.rps as nat
        } else {
            m
        }
    }
}

/// Every entry's latency and throughput lie below the list's maxima.
pub proof fn lemma_scale_bounds(s: Seq<Results>)
    ensures
        forall|i: int|
            0 <= i < s.len() ==> #[trigger] s[i].wrk_stats.latency_ns <= max_lat(s),
        forall|i: int| 0 <= i < s.len() ==> #[trigger] s[i].wrk_stats.rps <= max_rps(s),
    decreases s.len(),
{
    if s.len() > 0 {
        lemma_scale_bounds(s.drop_last());
        assert forall|i: int|
            0 <= i < s.len() implies #[trigger] s[i].wrk_stats.latency_ns <= max_lat(s) by {
            if i < s.len() - 1 {
                assert(s.drop_last()[i] == s[i]);
            }
        }
        assert forall|i: int| 0 <= i < s.len() implies #[trigger] s[i].wrk_stats.rps <= max_rps(
            s,
        ) by {
            if i < s.len() - 1 {
                assert(s.drop_last()[i] == s[i]);
            }
        }
    }
}

/// The global scale bounds of a result list: its largest latency and its
/// largest throughput.
pub fn scale_bounds(data: &Vec<Results>) -> (m: (u64, usize))
    ensures
        m.0 == max_lat(data@),
        m.1 == max_rps(data@),
{
    let mut ml: u64 = 0;
    let mut mr: usize = 0;
    let mut i: usize = 0;
    while i < data.len()
        invariant
            i <= data@.len(),
            ml == max_lat(data@.subrange(0, i as int)),
            mr == max_rps(data@.subrange(0, i as int)),
        decreases data@.len() - i,
    {
        let lat = data[i].wrk_stats.latency_ns;
        let rps = data[i].wrk_stats.rps;
        proof {
            assert(data@.subrange(0, i + 1).drop_last() =~= data@.subrange(0, i as int));
            assert(data@.subrange(0, i + 1).last() == data@[i as int]);
        }
        if lat > ml {
            ml = lat;
        }
        if rps > mr {
            mr = rps;
        }
        i += 1;
    }
    proof {
        assert(data@.subrange(0, data@.len() as int) =~= data@);
    }
    (ml, mr)
}

/// The length of one rendered bar: the value scaled into the chart width by
/// the shared maximum, floored, plus one so a zero value still shows.
pub open spec fn bar_size_spec(value: nat, max: nat, width: nat) -> nat {
    if max == 0 {
        1
    } else {
        value * width / max + 1
    }
}

/// Bar length for one value under the shared maximum `max`; a zero maximum
/// (an all-zero list) gives the minimal one-character bar.
pub fn bar_len(value: u64, max: u64, width: usize) -> (n: usize)
    requires
        value <= max,
        width < usize::MAX,
    ensures
        n == bar_size_spec(value as nat, max as nat, width as nat),
{
    if max == 0 {
        1
    } else {
        proof {
            lemma_mul_upper_bound(value as int, u64::MAX as int, width as int, u64::MAX as int);
            lemma_mul_inequality(value as int, max as int, width as int);
            lemma_div_is_ordered(
                value as int * width as int,
                max as int * width as int,
                max as int,
            );
            lemma_div_multiples_vanish(width as int, max as int);
        }
        let prod: u128 = (value as u128) * (width as u128);
        let q: u128 = prod / (max as u128);
        (q as usize) + 1
    }
}

/// The string of `n` stars that fills one bar.
pub fn bars(n: usize) -> (s: String)
    ensures
        s@.len() == n,
        forall|i: int| 0 <= i < n ==> s@[i] == '*',
{
    let mut s = String::new();
    let mut i: usize = 0;
    while i < n
        invariant
            i <= n,
            s@.len() == i,
            forall|k: int| 0 <= k < i ==> s@[k] == '*',
        decreases n - i,
    {
        proof {
            reveal_strlit("*");
        }
        s.append("*");
        i += 1;
    }
    s
}

/// Two results fall into the same chart group when they came from the same
/// scenario at the same concurrency level.
pub open spec fn same_key(a: Results, b: Results) -> bool {
    a.test@ == b.test@ && a.concurrency == b.concurrency
}

/// Splits the result list into its runs of consecutive entries sharing a
/// (scenario, concurrency) key. Returned as half-open index ranges that tile
/// the list in order: a range ends exactly where the key changes.
pub fn chart_groups(data: &Vec<Results>) -> (g: Vec<(usize, usize)>)
    ensures
        data@.len() == 0 ==> g@.len() == 0,
        data@.len() > 0 ==> g@.len() > 0 && g@[0].0 == 0 && g@[g@.len() - 1].1 == data@.len(),
        forall|j: int| 0 <= j < g@.len() ==> (#[trigger] g@[j]).0 < g@[j].1 <= data@.len(),
        forall|j: int| 0 < j < g@.len() ==> (#[trigger] g@[j]).0 == g@[j - 1].1,
        forall|j: int, k: int|
            #![trigger g@[j], data@[k]]
            0 <= j < g@.len() && g@[j].0 < k < g@[j].1 ==> same_key(data@[k], data@[k - 1]),
        forall|j: int|
            0 < j < g@.len() ==> !same_key(data@[(#[trigger] g@[j]).0 as int], data@[g@[j].0 - 1]),
{
    let n = data.len();
    let mut g: Vec<(usize, usize)> = Vec::new();
    if n == 0 {
        return g;
    }
    let mut start: usize = 0;
    let mut i: usize = 1;
    while i < n
        invariant
            n == data@.len(),
            1 <= i <= n,
            start < i,
            start == 0 ==> g@.len() == 0,
            start > 0 ==> g@.len() > 0 && g@[0].0 == 0 && g@[g@.len() - 1].1 == start,
            forall|j: int| 0 <= j < g@.len() ==> (#[trigger] g@[j]).0 < g@[j].1 <= start as int,
            forall|j: int| 0 < j < g@.len() ==> (#[trigger] g@[j]).0 == g@[j - 1].1,
            forall|j: int, k: int|
                #![trigger g@[j], data@[k]]
                0 <= j < g@.len() && g@[j].0 < k < g@[j].1 ==> same_key(data@[k], data@[k - 1]),
            forall|j: int|
                0 < j < g@.len() ==> !same_key(
                    data@[(#[trigger] g@[j]).0 as int],
                    data@[g@[j].0 - 1],
                ),
            start > 0 ==> !same_key(data@[start as int], data@[start as int - 1]),
            forall|k: int| start < k < i ==> same_key(#[trigger] data@[k], data@[k - 1]),
        decreases n - i,
    {
        let same = data[i].test == data[i - 1].test && data[i].concurrency == data[i
            - 1].concurrency;
        if !same {
            g.push((start, i));
            start = i;
        }
        i += 1;
    }
    g.push((start, n));
    g
}

/// Bar lengths of the latency chart, one per result, all to the scale of the
/// list-wide latency maximum.
pub fn latency_chart(data: &Vec<Results>, width: usize) -> (sizes: Vec<usize>)
    requires
        width < usize::MAX,
    ensures
        sizes@.len() == data@.len(),
        forall|i: int|
            0 <= i < data@.len() ==> sizes@[i] == bar_size_spec(
                data@[i].wrk_stats.latency_ns as nat,
                max_lat(data@),
                width as nat,
            ),
{
    let (ml, _) = scale_bounds(data);
    let mut sizes: Vec<usize> = Vec::new();
    let mut i: usize = 0;
    proof {
        lemma_scale_bounds(data@);
    }
    while i < data.len()
        invariant
            i <= data@.len(),
            sizes@.len() == i,
            ml == max_lat(data@),
            forall|k: int|
                0 <= k < data@.len() ==> #[trigger] data@[k].wrk_stats.latency_ns <= ml,
            width < usize::MAX,
            forall|k: int|
                0 <= k < i ==> sizes@[k] == bar_size_spec(
                    data@[k].wrk_stats.latency_ns as nat,
                    max_lat(data@),
                    width as nat,
                ),
        decreases data@.len() - i,
    {
        let v = data[i].wrk_stats.latency_ns;
        sizes.push(bar_len(v, ml, width));
        i += 1;
    }
    sizes
}

/// Bar lengths of the throughput chart, one per result, all to the scale of
/// the list-wide throughput maximum.
pub fn rps_chart(data: &Vec<Results>, width: usize) -> (sizes: Vec<usize>)
    requires
        width < usize::MAX,
    ensures
        sizes@.len() == data@.len(),
        forall|i: int|
            0 <= i < data@.len() ==> sizes@[i] == bar_size_spec(
                data@[i].wrk_stats.rps as nat,
                max_rps(data@),
                width as nat,
            ),
{
    let (_, mr) = scale_bounds(data);
    let mut sizes: Vec<usize> = Vec::new();
    let mut i: usize = 0;
    proof {
        lemma_scale_bounds(data@);
    }
    while i < data.len()
        invariant
            i <= data@.len(),
            sizes@.len() == i,
            mr == max_rps(data@),
            forall|k: int| 0 <= k < data@.len() ==> #[trigger] data@[k].wrk_stats.rps <= mr,
            width < usize::MAX,
            forall|k: int|
                0 <= k < i ==> sizes@[k] == bar_size_spec(
                    data@[k].wrk_stats.rps as nat,
                    max_rps(data@),
                    width as nat,
                ),
        decreases data@.len() - i,
    {
        let v = data[i].wrk_stats.rps;
        sizes.push(bar_len(v as u64, mr as u64, width));
        i += 1;
    }
    sizes
}

#[verifier::rlimit(100)]
#[verifier::spinoff_prover]
proof fn lemma_pair_groups_rec(rs: Seq<Results>, g: Seq<(usize, usize)>, j: int)
    requires
        rs.len() % 2 == 0,
        rs.len() > 0 ==> g.len() > 0 && g[0].0 == 0 && g[g.len() - 1].1 == rs.len(),
        forall|m: int| 0 <= m < g.len() ==> (#[trigger] g[m]).0 < g[m].1 <= rs.len(),
        forall|m: int| 0 < m < g.len() ==> (#[trigger] g[m]).0 == g[m - 1].1,
        forall|m: int, k: int|
            #![trigger g[m], rs[k]]
            0 <= m < g.len() && g[m].0 < k < g[m].1 ==> same_key(rs[k], rs[k - 1]),
        forall|m: int|
            0 < m < g.len() ==> !same_key(rs[(#[trigger] g[m]).0 as int], rs[g[m].0 - 1]),
        forall|k: int| 1 <= k < rs.len() ==> (same_key(#[trigger] rs[k], rs[k - 1]) <==> k % 2 == 1),
        0 <= j < g.len(),
    ensures
        g[j].0 == 2 * j && g[j].1 == 2 * j + 2,
    decreases j,
{
    if j > 0 {
        lemma_pair_groups_rec(rs, g, j - 1);
    }
    let s = g[j].0 as int;
    let e = g[j].1 as int;
    assert(s == 2 * j);
    // the group cannot stop after one entry: the next boundary would be odd
    if e == s + 1 {
        if j < g.len() - 1 {
            assert(g[j + 1].0 == e);
            assert(!same_key(rs[e], rs[e - 1]));
            assert(same_key(rs[e], rs[e - 1]));
        } else {
            assert(e == rs.len());
            assert(rs.len() % 2 == 0);
        }
    }
    // nor hold a third entry: an even index inside it would repeat the key
    if e >= s + 3 {
        assert(same_key(rs[s + 2], rs[s + 1]));
    }
    assert(e == s + 2);
}

/// When the (scenario, concurrency) key changes exactly at the even indices —
/// as a result list in sweep order guarantees, each level contributing one
/// row per backend — any grouping that splits consecutive equal keys consists
/// of exactly one two-entry group per concurrency level, in sweep order.
pub proof fn lemma_pair_groups(rs: Seq<Results>, g: Seq<(usize, usize)>)
    requires
        rs.len() % 2 == 0,
        rs.len() == 0 ==> g.len() == 0,
        rs.len() > 0 ==> g.len() > 0 && g[0].0 == 0 && g[g.len() - 1].1 == rs.len(),
        forall|m: int| 0 <= m < g.len() ==> (#[trigger] g[m]).0 < g[m].1 <= rs.len(),
        forall|m: int| 0 < m < g.len() ==> (#[trigger] g[m]).0 == g[m - 1].1,
        forall|m: int, k: int|
            #![trigger g[m], rs[k]]
            0 <= m < g.len() && g[m].0 < k < g[m].1 ==> same_key(rs[k], rs[k - 1]),
        forall|m: int|
            0 < m < g.len() ==> !same_key(rs[(#[trigger] g[m]).0 as int], rs[g[m].0 - 1]),
        forall|k: int| 1 <= k < rs.len() ==> (same_key(#[trigger] rs[k], rs[k - 1]) <==> k % 2 == 1),
    ensures
        g.len() == rs.len() / 2,
        forall|m: int| 0 <= m < g.len() ==> (#[trigger] g[m]).0 == 2 * m && g[m].1 == 2 * m + 2,
{
    assert forall|m: int| 0 <= m < g.len() implies (#[trigger] g[m]).0 == 2 * m && g[m].1 == 2 * m
        + 2 by {
        lemma_pair_groups_rec(rs, g, m);
    }
    if rs.len() > 0 {
        assert(g[g.len() - 1].1 == 2 * (g.len() - 1) + 2);
    }
}

} // verus!
