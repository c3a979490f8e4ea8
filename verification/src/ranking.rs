//! Order statistics of the collected scores: the order in which scores are
//! listed, the ranks that the median and percentiles read, and the bucket
//! counts of the histogram.
//!
//! Scores are floating-point numbers; here each one stands as an integer key
//! that orders as the score does.
use vstd::prelude::*;
use vstd::string::*;

verus! {

/// Why no statistics can be computed.
#[derive(Clone, Copy, Debug, PartialEq, Eq, Structural)]
pub enum StatsError {
    /// No file held a score in the requested field.
    NoScores,
}

impl StatsError {
    /// The message shown for this error, naming the score field and the
    /// directory that was searched.
    pub fn message(&self, field: &str, dir: &str) -> (r: String)
        ensures
            r@ == "No JSON files with a valid '"@ + field@ + "' field found in: "@ + dir@,
    {
        let mut r = String::from_str("No JSON files with a valid '");
        r.append(field);
        r.append("' field found in: ");
        r.append(dir);
        r
    }
}

/// Score `i` is listed before score `j`: its key is smaller, or the keys are
/// equal and `i` came first (the order is stable).
pub open spec fn ranked_before(keys: Seq<u64>, i: int, j: int) -> bool {
    keys[i] < keys[j] || (keys[i] == keys[j] && i < j)
}

/// `order` lists every index of `keys` exactly once, by ascending key, and
/// indices with equal keys in ascending order of index.
pub open spec fn is_sorted_order(keys: Seq<u64>, order: Seq<usize>) -> bool {
    &&& order.len() == keys.len()
    &&& forall|a: int| 0 <= a < order.len() ==> #[trigger] order[a] < keys.len()
    &&& forall|x: usize| x < keys.len() ==> #[trigger] order.contains(x)
    &&& forall|a: int, b: int|
        0 <= a < b < order.len() ==> ranked_before(keys, #[trigger] order[a] as int, #[trigger] order[b] as int)
}

/// The order in which the files are listed: by ascending score, ties kept in
/// the order in which the files were found.
pub fn sorted_order(keys: &Vec<u64>) -> (order: Vec<usize>)
    ensures
        is_sorted_order(keys@, order@),
        // Every index of `keys` appears exactly once ...
        order.len() == keys.len(),
        forall|a: int| 0 <= a < order.len() ==> #[trigger] order@[a] < keys.len(),
        forall|x: usize| x < keys.len() ==> #[trigger] order@.contains(x),
        // ... by ascending key, equal keys in ascending order of index.
        forall|a: int, b: int|
            0 <= a < b < order.len() ==> keys@[#[trigger] order@[a] as int] < keys@[#[trigger] order@[b] as int]
                || (keys@[order@[a] as int] == keys@[order@[b] as int] && order@[a] < order@[b]),
{
    let n = keys.len();
    let mut order: Vec<usize> = Vec::new();
    let mut i: usize = 0;
    while i < n
        invariant
            n == keys.len(),
            i <= n,
            order.len() == i,
            forall|a: int| 0 <= a < order.len() ==> #[trigger] order@[a] < i,
            forall|x: usize| x < i ==> #[trigger] order@.contains(x),
            forall|a: int, b: int|
                0 <= a < b < order.len() ==> ranked_before(keys@, #[trigger] order@[a] as int, #[trigger] order@[b] as int),
        decreases n - i,
    {
        let key = keys[i];
        let mut p: usize = 0;
        while p < order.len() && keys[order[p]] <= key
            invariant
                n == keys.len(),
                i < n,
                order.len() == i,
                p <= order.len(),
                forall|a: int| 0 <= a < order.len() ==> #[trigger] order@[a] < i,
                forall|a: int| 0 <= a < p ==> keys@[#[trigger] order@[a] as int] <= key,
            decreases order.len() - p,
        {
            p += 1;
        }
        proof {
            // Past the insertion point every key is larger than `key`.
            assert forall|a: int| p <= a < order.len() implies key < keys@[#[trigger] order@[a] as int] by {
                if p < order.len() {
                    assert(key < keys@[order@[p as int] as int]);
                    if a > p {
                        assert(ranked_before(keys@, order@[p as int] as int, order@[a] as int));
                    }
                }
            }
        }
        let ghost old_order = order@;
        order.insert(p, i);
        proof {
            assert(order@ == old_order.insert(p as int, i));
            assert forall|a: int| 0 <= a < order.len() implies #[trigger] order@[a] < i + 1 by {
                if a < p {
                    assert(order@[a] == old_order[a]);
                } else if a > p {
                    assert(order@[a] == old_order[a - 1]);
                }
            }
            assert forall|x: usize| x < i + 1 implies #[trigger] order@.contains(x) by {
                if x == i {
                    assert(order@[p as int] == i);
                } else {
                    assert(old_order.contains(x));
                    let a = choose|a: int| 0 <= a < old_order.len() && old_order[a] == x;
                    if a < p {
                        assert(order@[a] == x);
                    } else {
                        assert(order@[a + 1] == x);
                    }
                }
            }
            assert forall|a: int, b: int| 0 <= a < b < order.len() implies ranked_before(
                keys@,
                #[trigger] order@[a] as int,
                #[trigger] order@[b] as int,
            ) by {
                if b < p {
                    assert(order@[a] == old_order[a] && order@[b] == old_order[b]);
                } else if b == p {
                    assert(order@[a] == old_order[a]);
                } else if a < p {
                    assert(order@[a] == old_order[a] && order@[b] == old_order[b - 1]);
                    assert(keys@[old_order[a] as int] <= key);
                    assert(key < keys@[old_order[b - 1] as int]);
                } else if a == p {
                    assert(order@[b] == old_order[b - 1]);
                } else {
                    assert(order@[a] == old_order[a - 1] && order@[b] == old_order[b - 1]);
                }
            }
        }
        i += 1;
    }
    order
}

proof fn lemma_orders_agree_upto(keys: Seq<u64>, o1: Seq<usize>, o2: Seq<usize>, a: int)
    requires
        is_sorted_order(keys, o1),
        is_sorted_order(keys, o2),
        0 <= a < o1.len(),
    ensures
        forall|i: int| 0 <= i <= a ==> #[trigger] o1[i] == o2[i],
    decreases a,
{
    if a > 0 {
        lemma_orders_agree_upto(keys, o1, o2, a - 1);
    }
    let x = o1[a];
    let y = o2[a];
    if x != y {
        assert(o1.contains(y));
        let b = choose|b: int| 0 <= b < o1.len() && o1[b] == y;
        if b < a {
            assert(o2[b] == y);
            assert(ranked_before(keys, o2[b] as int, o2[a] as int));
        }
        assert(ranked_before(keys, o1[a] as int, o1[b] as int));
        assert(o2.contains(x));
        let c = choose|c: int| 0 <= c < o2.len() && o2[c] == x;
        if c < a {
            assert(o1[c] == x);
            assert(ranked_before(keys, o1[c] as int, o1[a] as int));
        }
        assert(ranked_before(keys, o2[a] as int, o2[c] as int));
    }
}

/// The listing order is determined by the keys alone: any two orders that
/// meet `is_sorted_order` for the same keys are the same.
pub proof fn lemma_sorted_order_unique(keys: Seq<u64>, o1: Seq<usize>, o2: Seq<usize>)
    requires
        is_sorted_order(keys, o1),
        is_sorted_order(keys, o2),
    ensures
        o1 == o2,
{
    if o1.len() > 0 {
        lemma_orders_agree_upto(keys, o1, o2, o1.len() - 1);
    }
    assert(o1 =~= o2);
}

/// The bucket that a raw bucket index falls in: indices past the last bucket
/// (the maximum score lands exactly there) go to the last one.
pub open spec fn bucket_of(raw: int, buckets: int) -> int {
    if raw < buckets - 1 {
        raw
    } else {
        buckets - 1
    }
}

/// How many of the raw indices fall in bucket `b`.
pub open spec fn bucket_count(raw: Seq<usize>, buckets: int, b: int) -> nat
    decreases raw.len(),
{
    if raw.len() == 0 {
        0
    } else {
        bucket_count(raw.drop_last(), buckets, b) + if bucket_of(raw.last() as int, buckets) == b {
            1nat
        } else {
            0nat
        }
    }
}

/// Sum of a sequence of counts.
pub open spec fn total(counts: Seq<u64>) -> int
    decreases counts.len(),
{
    if counts.len() == 0 {
        0
    } else {
        total(counts.drop_last()) + counts.last()
    }
}

proof fn lemma_bucket_count_bound(raw: Seq<usize>, buckets: int, b: int)
    ensures
        bucket_count(raw, buckets, b) <= raw.len(),
    decreases raw.len(),
{
    if raw.len() > 0 {
        lemma_bucket_count_bound(raw.drop_last(), buckets, b);
    }
}

/// Counts of the histogram: entry `b` is the number of scores whose raw
/// bucket index (the scaled distance from the minimum, rounded down) falls in
/// bucket `b`.
pub fn count_buckets(raw: &Vec<usize>, buckets: usize) -> (counts: Vec<u64>)
    requires
        buckets >= 1 || raw.len() == 0,
    ensures
        counts.len() == buckets,
        forall|b: int| 0 <= b < buckets ==> #[trigger] counts@[b] == bucket_count(raw@, buckets as int, b),
        // Every bucket but the last counts the scores whose raw index is that
        // bucket ...
        forall|b: int|
            0 <= b < buckets - 1 ==> #[trigger] counts@[b] == raw@.filter(|x: usize| x as int == b).len(),
        // ... and the last one counts those whose raw index is the last bucket
        // or beyond.
        buckets >= 1 ==> counts@[buckets - 1] == raw@.filter(|x: usize| x as int >= buckets - 1).len(),
{
    let mut counts: Vec<u64> = Vec::new();
    if buckets == 0 {
        return counts;
    }
    let mut b: usize = 0;
    while b < buckets
        invariant
            b <= buckets,
            counts.len() == b,
            forall|j: int| 0 <= j < b ==> #[trigger] counts@[j] == 0,
        decreases buckets - b,
    {
        counts.push(0);
        b += 1;
    }
    let mut i: usize = 0;
    while i < raw.len()
        invariant
            buckets >= 1,
            i <= raw.len(),
            counts.len() == buckets,
            forall|j: int| 0 <= j < buckets ==> #[trigger] counts@[j] == bucket_count(raw@.take(i as int), buckets as int, j),
        decreases raw.len() - i,
    {
        let idx: usize = if raw[i] < buckets - 1 { raw[i] } else { buckets - 1 };
        proof {
            assert(raw@.take(i + 1).drop_last() =~= raw@.take(i as int));
            lemma_bucket_count_bound(raw@.take(i as int), buckets as int, idx as int);
        }
        let c = counts[idx];
        counts.set(idx, c + 1);
        i += 1;
    }
    assert(raw@.take(raw.len() as int) =~= raw@);
    proof {
        lemma_bucket_counts_by_value(raw@, buckets as int);
    }
    counts
}

/// A score lands in the bucket named by its raw index; only indices at or
/// past the last bucket (the maximum score lands exactly there) are gathered
/// into the last one.
pub proof fn lemma_bucket_counts_by_value(raw: Seq<usize>, buckets: int)
    requires
        buckets >= 1,
    ensures
        forall|b: int|
            0 <= b < buckets - 1 ==> #[trigger] bucket_count(raw, buckets, b) == raw.filter(
                |x: usize| x as int == b,
            ).len(),
        bucket_count(raw, buckets, buckets - 1) == raw.filter(|x: usize| x as int >= buckets - 1).len(),
    decreases raw.len(),
{
    reveal(Seq::filter);
    if raw.len() > 0 {
        lemma_bucket_counts_by_value(raw.drop_last(), buckets);
        assert forall|b: int| 0 <= b < buckets - 1 implies #[trigger] bucket_count(raw, buckets, b)
            == raw.filter(|x: usize| x as int == b).len() by {
            reveal(Seq::filter);
            assert(bucket_count(raw.drop_last(), buckets, b) == raw.drop_last().filter(
                |x: usize| x as int == b,
            ).len());
        }
    }
}

/// Every score lands in exactly one bucket: the counts of the buckets add up
/// to the number of scores.
pub proof fn lemma_histogram_total(raw: Seq<usize>, buckets: int, counts: Seq<u64>)
    requires
        buckets >= 1 || raw.len() == 0,
        buckets >= 0,
        counts.len() == buckets,
        forall|b: int| 0 <= b < buckets ==> #[trigger] counts[b] == bucket_count(raw, buckets, b),
    ensures
        total(counts) == raw.len(),
    decreases raw.len(),
{
    if raw.len() == 0 {
        lemma_total_zero(counts);
    } else {
        let prev = raw.drop_last();
        let before = Seq::new(buckets as nat, |b: int| bucket_count(prev, buckets, b) as u64);
        let hit = bucket_of(raw.last() as int, buckets);
        assert forall|b: int| 0 <= b < buckets implies #[trigger] before[b] == bucket_count(prev, buckets, b) by {
            assert(bucket_count(raw, buckets, b) == bucket_count(prev, buckets, b) + if bucket_of(raw.last() as int, buckets) == b {
                1nat
            } else {
                0nat
            });
            assert(counts[b] == bucket_count(raw, buckets, b));
        }
        lemma_histogram_total(prev, buckets, before);
        assert forall|b: int| 0 <= b < buckets implies #[trigger] counts[b] == (if b == hit {
            before[b] + 1
        } else {
            before[b] as int
        }) by {
            assert(counts[b] == bucket_count(raw, buckets, b));
            assert(before[b] == bucket_count(prev, buckets, b));
        }
        lemma_total_bump(before, counts, hit);
    }
}

proof fn lemma_total_zero(s: Seq<u64>)
    requires
        forall|i: int| 0 <= i < s.len() ==> #[trigger] s[i] == 0,
    ensures
        total(s) == 0,
    decreases s.len(),
{
    if s.len() > 0 {
        lemma_total_zero(s.drop_last());
    }
}

proof fn lemma_total_bump(before: Seq<u64>, after: Seq<u64>, hit: int)
    requires
        before.len() == after.len(),
        0 <= hit < before.len(),
        forall|b: int| 0 <= b < before.len() ==> #[trigger] after[b] == (if b == hit {
            before[b] + 1
        } else {
            before[b] as int
        }),
    ensures
        total(after) == total(before) + 1,
    decreases before.len(),
{
    let n = before.len() as int;
    if hit == n - 1 {
        assert(after.drop_last() =~= before.drop_last());
    } else {
        lemma_total_bump(before.drop_last(), after.drop_last(), hit);
    }
}

/// Where percentile `percent` of `len` sorted scores lies: between ranks `lo`
/// and `hi`, at `rem` hundredths of the way from `lo`.
#[derive(Clone, Copy, Debug, PartialEq, Eq, Structural)]
pub struct PercentilePosition {
    pub lo: usize,
    pub hi: usize,
    pub rem: u8,
}

/// The percentile's exact fractional rank `percent * (len - 1) / 100` is
/// `lo + rem / 100`; `hi` is `lo` rounded up.
pub open spec fn percentile_at(len: int, percent: int, p: PercentilePosition) -> bool {
    &&& p.lo * 100 + p.rem == percent * (len - 1)
    &&& p.rem < 100
    &&& p.hi == (if p.rem == 0 { p.lo as int } else { p.lo + 1 })
}

/// Locates percentile `percent` among `len` sorted scores; there is none in
/// an empty list.
pub fn percentile_position(len: usize, percent: u8) -> (r: Option<PercentilePosition>)
    requires
        percent <= 100 || len <= 1,
    ensures
        len == 0 <==> r is None,
        r matches Some(p) ==> percentile_at(len as int, percent as int, p) && p.lo <= p.hi < len,
        // For every non-empty list the rank is `percent * (len - 1) / 100`,
        // split into whole part `lo` and hundredths `rem`, and `hi` rounds up.
        r matches Some(p) ==> p.lo * 100 + p.rem == percent * (len - 1) && p.rem < 100 && p.hi == (
        if p.rem == 0 {
            p.lo as int
        } else {
            p.lo + 1
        }),
{
    if len == 0 {
        return None;
    }
    if len == 1 {
        assert(0 * 100 + 0 == percent * (len - 1));
        return Some(PercentilePosition { lo: 0, hi: 0, rem: 0 });
    }
    assert(percent * (len - 1) <= 100 * usize::MAX) by (nonlinear_arith)
        requires
            percent <= 100,
            len >= 1,
    ;
    let t: u128 = percent as u128 * (len - 1) as u128;
    assert(t <= 100 * (len - 1)) by (nonlinear_arith)
        requires
            t == percent * (len - 1),
            percent <= 100,
            len >= 1,
    ;
    let lo: u128 = t / 100;
    let rem: u128 = t % 100;
    assert(lo * 100 + rem == t && rem < 100 && lo <= len - 1) by (nonlinear_arith)
        requires
            lo == t / 100,
            rem == t % 100,
            t <= 100 * (len - 1),
    ;
    let hi: u128 = if rem == 0 { lo } else { lo + 1 };
    assert(hi <= len - 1) by (nonlinear_arith)
        requires
            lo * 100 + rem == t,
            rem < 100,
            t <= 100 * (len - 1),
            hi == (if rem == 0 { lo as int } else { lo + 1 }),
    ;
    Some(PercentilePosition { lo: lo as usize, hi: hi as usize, rem: rem as u8 })
}

/// A higher percentile never lies before a lower one.
pub proof fn lemma_percentile_monotone(
    len: int,
    p1: int,
    p2: int,
    a: PercentilePosition,
    b: PercentilePosition,
)
    requires
        len >= 1,
        0 <= p1 <= p2,
        percentile_at(len, p1, a),
        percentile_at(len, p2, b),
    ensures
        a.lo <= b.lo,
        a.hi <= b.hi,
{
    assert(p1 * (len - 1) <= p2 * (len - 1)) by (nonlinear_arith)
        requires
            p1 <= p2,
            len >= 1,
    ;
}

/// Ranks that the summary reads from the sorted scores.
#[derive(Clone, Copy, Debug, PartialEq, Eq, Structural)]
pub struct SummaryRanks {
    /// Rank of the minimum.
    pub min: usize,
    /// Rank of the maximum.
    pub max: usize,
    /// The median is the mean of the scores at these two ranks (the same rank
    /// for an odd count).
    pub median_lo: usize,
    pub median_hi: usize,
}

/// The ranks of the minimum, maximum and median of `count` sorted scores;
/// there are no statistics without a score.
pub fn summary_ranks(count: usize) -> (r: Result<SummaryRanks, StatsError>)
    ensures
        count == 0 <==> r is Err,
        r matches Ok(s) ==> {
            &&& s.min == 0
            &&& s.max == count - 1
            &&& count % 2 == 0 ==> s.median_lo == count / 2 - 1 && s.median_hi == count / 2
            &&& count % 2 == 1 ==> s.median_lo == count / 2 && s.median_hi == count / 2
        },
{
    if count == 0 {
        return Err(StatsError::NoScores);
    }
    let half = count / 2;
    if count % 2 == 0 {
        Ok(SummaryRanks { min: 0, max: count - 1, median_lo: half - 1, median_hi: half })
    } else {
        Ok(SummaryRanks { min: 0, max: count - 1, median_lo: half, median_hi: half })
    }
}

/// The median sits in the middle: as many scores rank at or below its lower
/// rank as at or above its upper rank.
pub proof fn lemma_median_centered(count: int, s: SummaryRanks)
    requires
        count >= 1,
        count % 2 == 0 ==> s.median_lo == count / 2 - 1 && s.median_hi == count / 2,
        count % 2 == 1 ==> s.median_lo == count / 2 && s.median_hi == count / 2,
    ensures
        s.median_lo + 1 == count - s.median_hi,
        s.median_lo <= s.median_hi <= s.median_lo + 1,
        s.median_hi < count,
{
}

} // verus!
