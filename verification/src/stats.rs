//! Order statistics of measured frame times.
//!
//! A frame time is a count of nanoseconds. The summary of a measurement run
//! holds the frame times in ascending order together with the positions, in
//! that order, of the median and of the 95th percentile.
use vstd::prelude::*;

verus! {

broadcast use vstd::seq_lib::group_to_multiset_ensures;

/// `s` is in ascending order.
pub open spec fn ascending(s: Seq<u128>) -> bool {
    forall|a: int, b: int| 0 <= a <= b < s.len() ==> s[a] <= s[b]
}

/// `s` holds the same values as `t`, each as often.
pub open spec fn same_values(s: Seq<u128>, t: Seq<u128>) -> bool {
    s.to_multiset() == t.to_multiset()
}

/// Where the median of `n` ascending values stands.
#[derive(Clone, Copy, Debug, PartialEq, Eq, Structural)]
pub enum MedianAt {
    /// An odd count: the value at this position.
    Middle(usize),
    /// An even count: the mean of the values at these two adjacent positions.
    Between(usize, usize),
}

/// The median position of `n` ascending values.
pub open spec fn median_position(n: nat) -> MedianAt {
    if n % 2 == 0 {
        MedianAt::Between((n / 2 - 1) as usize, (n / 2) as usize)
    } else {
        MedianAt::Middle((n / 2) as usize)
    }
}

/// The 95th-percentile position of `n` ascending values: the floor of
/// 95 % of `n`, kept below `n`.
pub open spec fn p95_position(n: nat) -> int {
    let p: int = ((19 * n) / 20) as int;
    if p < n - 1 { p } else { n - 1 }
}

/// Returns the frame times in ascending order.
pub fn sort_frame_times(times: &Vec<u128>) -> (sorted: Vec<u128>)
    ensures
        ascending(sorted@),
        same_values(sorted@, times@),
        sorted.len() == times.len(),
{
    let mut sorted: Vec<u128> = Vec::new();
    let n = times.len();
    assert(times@.take(0) =~= Seq::<u128>::empty());
    for i in 0..n
        invariant
            n == times.len(),
            ascending(sorted@),
            same_values(sorted@, times@.take(i as int)),
            sorted.len() == i,
    {
        let x = times[i];
        let mut j = sorted.len();
        while j > 0 && sorted[j - 1] > x
            invariant
                j <= sorted.len(),
                ascending(sorted@),
                forall|k: int| j <= k < sorted.len() ==> sorted@[k] > x,
            decreases j,
        {
            j = j - 1;
        }
        let ghost before = sorted@;
        sorted.insert(j, x);
        proof {
            lemma_insert_same_values(before, j as int, x);
            assert(times@.take(i + 1) =~= times@.take(i as int).push(x));
            assert forall|a: int, b: int| 0 <= a <= b < sorted@.len() implies sorted@[a]
                <= sorted@[b] by {
                if a < j && b > j {
                    assert(sorted@[a] == before[a]);
                    assert(sorted@[b] == before[b - 1]);
                } else if a < j && b == j {
                    assert(sorted@[a] == before[a]);
                    assert(before[a] <= before[j - 1]);
                } else if a == j && b > j {
                    assert(sorted@[b] == before[b - 1]);
                } else if a > j {
                    assert(sorted@[a] == before[a - 1]);
                    assert(sorted@[b] == before[b - 1]);
                }
            }
        }
    }
    proof {
        assert(times@.take(n as int) =~= times@);
    }
    sorted
}

/// Inserting a value anywhere adds exactly that value.
proof fn lemma_insert_same_values(s: Seq<u128>, pos: int, x: u128)
    requires
        0 <= pos <= s.len(),
    ensures
        s.insert(pos, x).to_multiset() == s.to_multiset().insert(x),
{
    let t = s.insert(pos, x);
    assert(t.remove(pos) =~= s);
    assert(t[pos] == x);
    assert(t.contains(x));
    assert(t.to_multiset().remove(x) == s.to_multiset());
    assert(t.to_multiset().count(x) > 0);
    assert(t.to_multiset() =~= s.to_multiset().insert(x));
}

/// The median position of `n` ascending values.
pub fn median_at(n: usize) -> (m: MedianAt)
    requires
        n >= 1,
    ensures
        m == median_position(n as nat),
        splits_evenly(m, n as nat),
{
    proof {
        lemma_median_splits_evenly(n as nat);
    }
    if n % 2 == 0 {
        MedianAt::Between(n / 2 - 1, n / 2)
    } else {
        MedianAt::Middle(n / 2)
    }
}

/// The 95th-percentile position of `n` ascending values.
pub fn p95_at(n: usize) -> (p: usize)
    requires
        n >= 1,
    ensures
        p == p95_position(n as nat),
        p < n,
{
    // floor(19 n / 20) == n - ceil(n / 20), which stays in range for every n
    let ceil_twentieth = n / 20 + if n % 20 == 0 { 0 } else { 1 };
    let p = n - ceil_twentieth;
    assert(p == (19 * n) / 20) by (nonlinear_arith)
        requires
            ceil_twentieth == n / 20 + if n % 20 == 0 { 0int } else { 1int },
            p == n - ceil_twentieth,
            n >= 1,
    ;
    if p < n - 1 { p } else { n - 1 }
}

/// The frame times of a measurement run in ascending order, with the
/// positions of their median and 95th percentile.
pub struct FrameSummary {
    pub sorted: Vec<u128>,
    pub median: MedianAt,
    pub p95: usize,
}

/// Sorts the frame times and locates their median and 95th percentile.
pub fn summarize_frame_times(times: &Vec<u128>) -> (s: FrameSummary)
    requires
        times.len() >= 1,
    ensures
        ascending(s.sorted@),
        same_values(s.sorted@, times@),
        s.sorted.len() == times.len(),
        s.median == median_position(times.len() as nat),
        splits_evenly(s.median, times.len() as nat),
        s.p95 == p95_position(times.len() as nat),
{
    let sorted = sort_frame_times(times);
    let n = times.len();
    FrameSummary { sorted, median: median_at(n), p95: p95_at(n) }
}

/// For any non-empty run (of a length a machine can index), the median and
/// 95th-percentile positions lie within it, and the 95th percentile stands
/// no lower than the median.
pub proof fn lemma_positions_in_range(n: nat)
    requires
        1 <= n <= usize::MAX,
    ensures
        0 <= p95_position(n) < n,
        match median_position(n) {
            MedianAt::Middle(i) => i < n && i <= p95_position(n),
            MedianAt::Between(i, j) => i + 1 == j && j < n && j <= p95_position(n),
        },
{
    assert((19 * n) / 20 >= n / 2) by (nonlinear_arith)
        requires
            n >= 1,
    ;
    assert(n / 2 < n);
}

/// Ascending order and equal values determine the sorted run: any two
/// ascending sequences of the same frame times are the same, so the summary
/// of a measurement does not depend on the order the frames came in.
pub proof fn lemma_sorted_run_is_unique(x: Seq<u128>, y: Seq<u128>)
    requires
        ascending(x),
        ascending(y),
        x.to_multiset() == y.to_multiset(),
    ensures
        x == y,
{
    let leq = |a: u128, b: u128| a <= b;
    assert(vstd::relations::total_ordering(leq));
    assert(vstd::relations::sorted_by(x, leq)) by {
        assert forall|i: int, j: int| 0 <= i < j < x.len() implies leq(x[i], x[j]) by {}
    }
    assert(vstd::relations::sorted_by(y, leq)) by {
        assert forall|i: int, j: int| 0 <= i < j < y.len() implies leq(y[i], y[j]) by {}
    }
    vstd::seq_lib::lemma_sorted_unique(x, y, leq);
}

/// The median stands where as many positions lie below it as above it:
/// for an odd count it is the one position `i` with `2i + 1 == n`, for an
/// even count the two adjacent positions `i, i + 1` with `i + (i + 1) + 1 == n`.
pub open spec fn splits_evenly(m: MedianAt, n: nat) -> bool {
    match m {
        MedianAt::Middle(i) => 2 * i + 1 == n,
        MedianAt::Between(i, j) => j == i + 1 && i + j + 1 == n,
    }
}

/// The median position of any machine-indexable non-empty run splits it
/// evenly.
pub proof fn lemma_median_splits_evenly(n: nat)
    requires
        1 <= n <= usize::MAX,
    ensures
        splits_evenly(median_position(n), n),
{
}

} // verus!
