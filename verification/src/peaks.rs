//! The shape of the peak pyramid over a channel and the choice of which
//! pyramid level (or which raw samples) summarise a range of samples.
//!
//! Level `k` of the pyramid holds one peak per `32 * 2^k` samples: level 0
//! summarises fixed chunks of samples and every further level merges
//! neighbouring pairs of the level below, until a level holds a single peak.
//! Merging the floating-point peaks themselves is left to the caller; this
//! module fixes the layout and the indices.
use vstd::prelude::*;

verus! {

/// Summaries over at most this many samples scan the samples directly.
pub const RAW_SCAN_THRESHOLD: usize = 2048;

/// Samples per peak at the lowest pyramid level.
pub const BASE_CHUNK_SIZE: usize = 32;

/// `n / d` rounded up.
pub open spec fn ceil_div(n: int, d: int) -> int {
    (n + d - 1) / d
}

/// `2^k`.
pub open spec fn pow2(k: nat) -> nat
    decreases k,
{
    if k == 0 {
        1
    } else {
        2 * pow2((k - 1) as nat)
    }
}

/// One level of the pyramid: samples per peak and number of peaks.
#[derive(Clone, Copy, Debug, PartialEq, Eq)]
pub struct LevelShape {
    pub chunk_size: usize,
    pub peak_count: usize,
}

/// Whether `l` is level `k` of the pyramid over `n` samples.
pub open spec fn is_level_at(n: int, k: nat, l: LevelShape) -> bool {
    &&& l.chunk_size as int == 32 * pow2(k)
    &&& l.peak_count as int == ceil_div(n, (32 * pow2(k)) as int)
}

/// The layout of the pyramid over `n` samples: none for at most 32 samples,
/// otherwise levels `0..L` where level `L - 1` is the first with one peak.
pub open spec fn is_level_layout(n: int, levels: Seq<LevelShape>) -> bool {
    if n <= 32 {
        levels.len() == 0
    } else {
        &&& levels.len() >= 1
        &&& forall|k: int| 0 <= k < levels.len() ==> is_level_at(n, k as nat, #[trigger] levels[k])
        &&& forall|k: int| 0 <= k < levels.len() - 1 ==> #[trigger] levels[k].peak_count > 1
        &&& levels.last().peak_count == 1
    }
}

/// Characterisation of rounded-up division.
pub proof fn lemma_ceil_div(n: int, d: int, q: int)
    requires
        n >= 0,
        d > 0,
    ensures
        q == ceil_div(n, d) <==> (q * d >= n && (q - 1) * d < n),
{
    let c = ceil_div(n, d);
    vstd::arithmetic::div_mod::lemma_fundamental_div_mod(n + d - 1, d);
    let r = (n + d - 1) % d;
    assert(c * d >= n && (c - 1) * d < n) by (nonlinear_arith)
        requires
            n + d - 1 == d * c + r,
            0 <= r < d,
    ;
    if q * d >= n && (q - 1) * d < n {
        assert(q == c) by (nonlinear_arith)
            requires
                q * d >= n,
                (q - 1) * d < n,
                c * d >= n,
                (c - 1) * d < n,
                d > 0,
        ;
    }
}

/// Rounding up twice is rounding up once: merging pairs of the peaks of
/// `d`-sample chunks gives the peaks of `2d`-sample chunks.
pub proof fn lemma_ceil_div_twice(n: int, d: int)
    requires
        n >= 0,
        d > 0,
    ensures
        ceil_div(ceil_div(n, d), 2) == ceil_div(n, 2 * d),
{
    let q = ceil_div(n, d);
    lemma_ceil_div(n, d, q);
    assert(q >= 0) by (nonlinear_arith)
        requires
            q * d >= n,
            n >= 0,
            d > 0,
    ;
    let r = ceil_div(q, 2);
    lemma_ceil_div(q, 2, r);
    assert(r * (2 * d) >= n && (r - 1) * (2 * d) < n) by (nonlinear_arith)
        requires
            q * d >= n,
            (q - 1) * d < n,
            r * 2 >= q,
            (r - 1) * 2 < q,
            d > 0,
    ;
    lemma_ceil_div(n, 2 * d, r);
}

/// The layout of the peak pyramid over `sample_count` samples.
pub fn level_layout(sample_count: usize) -> (r: Vec<LevelShape>)
    requires
        sample_count <= usize::MAX / 2 + 1,
    ensures
        is_level_layout(sample_count as int, r@),
{
    let mut levels: Vec<LevelShape> = Vec::new();
    if sample_count <= BASE_CHUNK_SIZE {
        return levels;
    }
    let n = sample_count;
    let mut chunk: usize = BASE_CHUNK_SIZE;
    let mut count: usize = n / BASE_CHUNK_SIZE + if n % BASE_CHUNK_SIZE != 0 {
        1
    } else {
        0
    };
    let ghost mut k: nat = 0;
    assert(count as int == ceil_div(n as int, 32));
    assert(pow2(0) == 1);
    loop
        invariant_except_break
            n > 32,
            n <= usize::MAX / 2 + 1,
            levels@.len() == k,
            chunk as int == 32 * pow2(k),
            chunk >= 32,
            count as int == ceil_div(n as int, chunk as int),
            count >= 1,
            forall|j: int| 0 <= j < k ==> is_level_at(n as int, j as nat, #[trigger] levels@[j]),
            forall|j: int| 0 <= j < k ==> #[trigger] levels@[j].peak_count > 1,
        ensures
            is_level_layout(n as int, levels@),
        decreases count,
    {
        levels.push(LevelShape { chunk_size: chunk, peak_count: count });
        if count <= 1 {
            assert(levels@.last().peak_count == 1);
            break;
        }
        proof {
            lemma_ceil_div_twice(n as int, chunk as int);
            lemma_ceil_div(n as int, chunk as int, count as int);
            assert(chunk < n) by (nonlinear_arith)
                requires
                    (count - 1) * chunk < n,
                    count >= 2,
                    chunk > 0,
            ;
        }
        count = count / 2 + count % 2;
        chunk = chunk * 2;
        proof {
            k = k + 1;
        }
    }
    levels
}

// ---------------------------------------------------------------------------
// Choosing what summarises a range
// ---------------------------------------------------------------------------

/// How to summarise a range of samples: nothing (no samples), the samples
/// `start..end` themselves, or the peaks `start..end` of pyramid level
/// `level`.
#[derive(Clone, Copy, Debug, PartialEq, Eq)]
pub enum SummaryPlan {
    Empty,
    Samples { start: usize, end: usize },
    Buckets { level: usize, start: usize, end: usize },
}

/// Among levels `0..k`, the highest one whose chunks hold at most `target`
/// samples, or level 0 when none does.
pub open spec fn pick_level_below(chunks: Seq<usize>, target: int, k: int) -> int
    decreases k,
{
    if k <= 0 {
        0
    } else if chunks[k - 1] <= target {
        k - 1
    } else {
        pick_level_below(chunks, target, k - 1)
    }
}

/// The chosen level is one of the levels.
pub proof fn lemma_pick_level_in_range(chunks: Seq<usize>, target: int, k: int)
    requires
        0 < k,
    ensures
        0 <= pick_level_below(chunks, target, k) < k,
    decreases k,
{
    if chunks[k - 1] > target {
        if k > 1 {
            lemma_pick_level_in_range(chunks, target, k - 1);
        } else {
            assert(pick_level_below(chunks, target, 0) == 0);
        }
    }
}

/// The sample range actually summarised for a request `range_start..range_end`
/// over `n > 0` samples: the start clamped to the last sample, the end to at
/// least one sample past the start and at most `n`.
pub open spec fn clamped_start(n: int, range_start: int) -> int {
    if range_start < n - 1 {
        range_start
    } else {
        n - 1
    }
}

pub open spec fn clamped_end(n: int, range_start: int, range_end: int) -> int {
    let s = clamped_start(n, range_start);
    let e = if range_end > s + 1 {
        range_end
    } else {
        s + 1
    };
    if e < n {
        e
    } else {
        n
    }
}

/// The level the plan uses for a clamped span.
pub open spec fn plan_level(chunks: Seq<usize>, span: int) -> int {
    let target = if span / 4 > 32 {
        span / 4
    } else {
        32
    };
    pick_level_below(chunks, target, chunks.len() as int)
}

/// What summarising `range_start..range_end` of `n` samples reads, given the
/// chunk sizes of the pyramid levels.
pub open spec fn spec_summary_plan(n: int, chunks: Seq<usize>, range_start: int, range_end: int) -> SummaryPlan {
    if n == 0 {
        SummaryPlan::Empty
    } else {
        let start = clamped_start(n, range_start);
        let end = clamped_end(n, range_start, range_end);
        let span = end - start;
        if span <= 2048 || chunks.len() == 0 {
            SummaryPlan::Samples { start: start as usize, end: end as usize }
        } else {
            let level = plan_level(chunks, span);
            let chunk = chunks[level] as int;
            SummaryPlan::Buckets {
                level: level as usize,
                start: (start / chunk) as usize,
                end: ((end - 1) / chunk + 1) as usize,
            }
        }
    }
}

/// Whether summarising would divide by a zero chunk size.
pub open spec fn plan_divides_by_zero(n: int, chunks: Seq<usize>, range_start: int, range_end: int) -> bool {
    n > 0 && {
        let start = clamped_start(n, range_start);
        let end = clamped_end(n, range_start, range_end);
        let span = end - start;
        span > 2048 && chunks.len() > 0 && chunks[plan_level(chunks, span)] == 0
    }
}

/// Chooses what summarises `range_start..range_end` of `sample_count`
/// samples whose pyramid levels have the chunk sizes `chunk_sizes`.
pub fn summary_plan(
    sample_count: usize,
    chunk_sizes: &Vec<usize>,
    range_start: usize,
    range_end: usize,
) -> (r: SummaryPlan)
    requires
        !plan_divides_by_zero(sample_count as int, chunk_sizes@, range_start as int, range_end as int),
    ensures
        r == spec_summary_plan(sample_count as int, chunk_sizes@, range_start as int, range_end as int),
{
    if sample_count == 0 {
        return SummaryPlan::Empty;
    }
    let start = if range_start < sample_count - 1 {
        range_start
    } else {
        sample_count - 1
    };
    let lower = if range_end > start + 1 {
        range_end
    } else {
        start + 1
    };
    let end = if lower < sample_count {
        lower
    } else {
        sample_count
    };
    let span = end - start;
    if span <= RAW_SCAN_THRESHOLD || chunk_sizes.len() == 0 {
        return SummaryPlan::Samples { start, end };
    }
    let target = if span / 4 > BASE_CHUNK_SIZE {
        span / 4
    } else {
        BASE_CHUNK_SIZE
    };
    let mut k = chunk_sizes.len();
    let mut level: usize = 0;
    while k > 0
        invariant_except_break
            k <= chunk_sizes@.len(),
            level == 0,
            pick_level_below(chunk_sizes@, target as int, chunk_sizes@.len() as int)
                == pick_level_below(chunk_sizes@, target as int, k as int),
        ensures
            level == pick_level_below(chunk_sizes@, target as int, chunk_sizes@.len() as int),
        decreases k,
    {
        if chunk_sizes[k - 1] <= target {
            level = k - 1;
            break;
        }
        k = k - 1;
    }
    assert(level == plan_level(chunk_sizes@, span as int));
    proof {
        lemma_pick_level_in_range(chunk_sizes@, target as int, chunk_sizes@.len() as int);
    }
    let chunk = chunk_sizes[level];
    SummaryPlan::Buckets { level, start: start / chunk, end: (end - 1) / chunk + 1 }
}

// ---------------------------------------------------------------------------
// Laws
// ---------------------------------------------------------------------------

/// The chunk sizes of a pyramid layout.
pub open spec fn chunk_sizes_of(levels: Seq<LevelShape>) -> Seq<usize> {
    levels.map_values(|l: LevelShape| l.chunk_size)
}

pub proof fn lemma_pow2_positive(k: nat)
    ensures
        pow2(k) >= 1,
    decreases k,
{
    if k > 0 {
        lemma_pow2_positive((k - 1) as nat);
    }
}

/// Each pyramid level pairs up the peaks of the level below: its chunks are
/// twice as long and it holds half as many peaks, rounded up.
pub proof fn lemma_levels_pair_up(n: int, levels: Seq<LevelShape>, k: int)
    requires
        is_level_layout(n, levels),
        0 <= k < levels.len() - 1,
    ensures
        levels[k + 1].chunk_size == 2 * levels[k].chunk_size,
        levels[k + 1].peak_count == ceil_div(levels[k].peak_count as int, 2),
{
    let c = 32 * pow2(k as nat);
    lemma_pow2_positive(k as nat);
    assert(is_level_at(n, k as nat, levels[k]));
    assert(is_level_at(n, (k + 1) as nat, levels[k + 1]));
    assert(pow2((k + 1) as nat) == 2 * pow2(k as nat));
    lemma_ceil_div_twice(n, c as int);
}

/// A plan for a range of a channel whose pyramid has the layout of its
/// sample count only reads what exists and covers the whole clamped range:
/// raw sample ranges are non-empty and inside the samples; bucket ranges
/// are non-empty, inside their level, and their chunks span the clamped
/// range.
pub proof fn lemma_plan_in_bounds(n: int, levels: Seq<LevelShape>, range_start: int, range_end: int)
    requires
        0 <= n <= usize::MAX / 2 + 1,
        0 <= range_start <= usize::MAX,
        0 <= range_end <= usize::MAX,
        is_level_layout(n, levels),
        levels.len() <= usize::MAX,
    ensures
        !plan_divides_by_zero(n, chunk_sizes_of(levels), range_start, range_end),
        spec_summary_plan(n, chunk_sizes_of(levels), range_start, range_end) matches SummaryPlan::Samples { start, end } ==> {
            &&& start == clamped_start(n, range_start)
            &&& end == clamped_end(n, range_start, range_end)
            &&& start < end <= n
        },
        spec_summary_plan(n, chunk_sizes_of(levels), range_start, range_end) matches SummaryPlan::Buckets { level, start, end } ==> {
            &&& level < levels.len()
            &&& start < end <= levels[level as int].peak_count
            &&& start * levels[level as int].chunk_size <= clamped_start(n, range_start)
            &&& clamped_end(n, range_start, range_end) <= end * levels[level as int].chunk_size
        },
{
    let chunks = chunk_sizes_of(levels);
    if n > 0 && chunks.len() > 0 {
        let s = clamped_start(n, range_start);
        let e = clamped_end(n, range_start, range_end);
        let span = e - s;
        let target = if span / 4 > 32 {
            span / 4
        } else {
            32
        };
        lemma_pick_level_in_range(chunks, target, chunks.len() as int);
        let l = plan_level(chunks, span);
        assert(is_level_at(n, l as nat, levels[l]));
        lemma_pow2_positive(l as nat);
        let c = 32 * pow2(l as nat);
        assert(chunks[l] == c);
        if span > 2048 {
            let sb = s / (c as int);
            let eb = (e - 1) / (c as int) + 1;
            lemma_ceil_div(n, c as int, ceil_div(n, c as int));
            assert(ceil_div(n, c as int) == (n - 1) / (c as int) + 1) by {
                vstd::arithmetic::div_mod::lemma_div_plus_one(n - 1, c as int);
            }
            assert(0 <= ceil_div(n, c as int) <= n) by (nonlinear_arith)
                requires
                    (ceil_div(n, c as int) - 1) * c < n,
                    ceil_div(n, c as int) * c >= n,
                    c >= 1,
                    n >= 1,
            ;
            assert(levels[l].peak_count as int == ceil_div(n, c as int));
            assert(eb <= ceil_div(n, c as int)) by {
                vstd::arithmetic::div_mod::lemma_div_is_ordered(e - 1, n - 1, c as int);
            }
            assert(sb < eb) by {
                vstd::arithmetic::div_mod::lemma_div_is_ordered(s, e - 1, c as int);
            }
            assert(sb * c <= s) by {
                vstd::arithmetic::div_mod::lemma_fundamental_div_mod(s, c as int);
                vstd::arithmetic::mul::lemma_mul_is_commutative(sb, c as int);
            }
            assert(e <= eb * c) by {
                vstd::arithmetic::div_mod::lemma_fundamental_div_mod(e - 1, c as int);
                vstd::arithmetic::mul::lemma_mul_is_distributive_add_other_way(c as int, (e - 1) / (c as int), 1);
                vstd::arithmetic::mul::lemma_mul_is_commutative(eb, c as int);
            }
            assert(0 <= sb <= s) by {
                vstd::arithmetic::div_mod::lemma_div_is_ordered_by_denominator(s, 1, c as int);
            }
            assert(l < levels.len());
            assert(spec_summary_plan(n, chunks, range_start, range_end) == SummaryPlan::Buckets {
                level: l as usize,
                start: sb as usize,
                end: eb as usize,
            });
        }
    }
}

/// The level picked among `0..k` is the highest whose chunks fit the
/// target; when none fits it is level 0.
proof fn lemma_pick_level_is_highest_fit(chunks: Seq<usize>, target: int, k: int)
    requires
        0 < k <= chunks.len(),
    ensures
        ({
            let l = pick_level_below(chunks, target, k);
            &&& 0 <= l < k
            &&& (chunks[l] <= target || l == 0)
            &&& forall|j: int| l < j < k ==> #[trigger] chunks[j] > target
            &&& (exists|j: int| 0 <= j < k && chunks[j] <= target) ==> chunks[l] <= target
        }),
    decreases k,
{
    let l = pick_level_below(chunks, target, k);
    if chunks[k - 1] <= target {
        assert(l == k - 1);
    } else if k == 1 {
        assert(l == pick_level_below(chunks, target, 0));
        assert(l == 0);
    } else {
        lemma_pick_level_is_highest_fit(chunks, target, k - 1);
        assert(l == pick_level_below(chunks, target, k - 1));
        assert forall|j: int| l < j < k implies #[trigger] chunks[j] > target by {
            if j < k - 1 {
                assert(l < j < k - 1);
            }
        }
        if exists|j: int| 0 <= j < k && chunks[j] <= target {
            let j = choose|j: int| 0 <= j < k && chunks[j] <= target;
            assert(0 <= j < k - 1);
        }
    }
}

/// What a summary reads, in terms of the request: nothing for an empty
/// channel; the clamped sample range itself when it spans at most 2048
/// samples (or there is no pyramid); otherwise the buckets of the coarsest
/// level whose chunk holds at most a quarter of the span (at least 32
/// samples), starting with the bucket that holds the first clamped sample
/// and ending with the one that holds the last, so that the buckets cover
/// the clamped range and none lies wholly outside it.
pub proof fn lemma_plan_reads_the_range(n: int, chunks: Seq<usize>, range_start: int, range_end: int)
    requires
        0 <= n <= usize::MAX,
        0 <= range_start <= usize::MAX,
        0 <= range_end <= usize::MAX,
        chunks.len() <= usize::MAX,
        !plan_divides_by_zero(n, chunks, range_start, range_end),
    ensures
        ({
            let s = clamped_start(n, range_start);
            let e = clamped_end(n, range_start, range_end);
            let target = if (e - s) / 4 > 32 { (e - s) / 4 } else { 32 };
            match spec_summary_plan(n, chunks, range_start, range_end) {
                SummaryPlan::Empty => n == 0,
                SummaryPlan::Samples { start, end } => {
                    &&& n > 0
                    &&& (e - s <= 2048 || chunks.len() == 0)
                    &&& start == s
                    &&& end == e
                },
                SummaryPlan::Buckets { level, start, end } => {
                    let c = chunks[level as int] as int;
                    &&& n > 0
                    &&& e - s > 2048
                    &&& level < chunks.len()
                    &&& c > 0
                    &&& start * c <= s < (start + 1) * c
                    &&& (end - 1) * c < e <= end * c
                    &&& (c <= target || level == 0)
                    &&& forall|j: int| level < j < chunks.len() ==> #[trigger] chunks[j] > target
                },
            }
        }),
{
    if n > 0 {
        let s = clamped_start(n, range_start);
        let e = clamped_end(n, range_start, range_end);
        let span = e - s;
        if span > 2048 && chunks.len() > 0 {
            let target = if span / 4 > 32 { span / 4 } else { 32 };
            lemma_pick_level_is_highest_fit(chunks, target, chunks.len() as int);
            let l = plan_level(chunks, span);
            let c = chunks[l] as int;
            let sb = s / c;
            let eb = (e - 1) / c + 1;
            assert(sb * c <= s < (sb + 1) * c) by {
                vstd::arithmetic::div_mod::lemma_fundamental_div_mod(s, c);
                vstd::arithmetic::mul::lemma_mul_is_commutative(sb, c);
                vstd::arithmetic::mul::lemma_mul_is_distributive_add_other_way(c, sb, 1);
            }
            assert((eb - 1) * c <= e - 1 < eb * c) by {
                vstd::arithmetic::div_mod::lemma_fundamental_div_mod(e - 1, c);
                vstd::arithmetic::mul::lemma_mul_is_commutative(eb - 1, c);
                vstd::arithmetic::mul::lemma_mul_is_distributive_add_other_way(c, eb - 1, 1);
            }
            assert(0 <= sb <= s) by {
                vstd::arithmetic::div_mod::lemma_div_is_ordered_by_denominator(s, 1, c);
            }
            assert(1 <= eb <= e) by {
                vstd::arithmetic::div_mod::lemma_div_is_ordered_by_denominator(e - 1, 1, c);
            }
            assert(spec_summary_plan(n, chunks, range_start, range_end) == SummaryPlan::Buckets {
                level: l as usize,
                start: sb as usize,
                end: eb as usize,
            });
            assert(eb * c == (eb - 1) * c + c) by {
                vstd::arithmetic::mul::lemma_mul_is_distributive_add_other_way(c, eb - 1, 1);
                vstd::arithmetic::mul::lemma_mul_is_commutative(eb, c);
                vstd::arithmetic::mul::lemma_mul_is_commutative(eb - 1, c);
            }
        }
    }
}

} // verus!
