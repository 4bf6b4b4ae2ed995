//! Histograms of latencies.

use vstd::prelude::*;

use crate::counting::{lemma_count_mapped, lemma_count_same};
use crate::double::whole;
use crate::duration::Duration;
use crate::stats::{format_whole_ns, nanos_of, ns_text, sample_nanos};
use crate::text::{
    decimal, holds_part, left_aligned, lemma_part_between, lemma_part_stays, push_decimal,
    push_left_aligned, push_repeated, push_right_aligned, repeated, right_aligned,
};

verus! {

/// The largest of `values`, zero for none.
pub open spec fn largest(values: Seq<u64>) -> u64
    decreases values.len(),
{
    if values.len() == 0 {
        0
    } else {
        let rest = largest(values.drop_last());
        if values.last() > rest {
            values.last()
        } else {
            rest
        }
    }
}

/// How many nanoseconds wide each of `buckets` buckets is: wide enough that they
/// reach the largest value, and at least one.
pub open spec fn bucket_width(values: Seq<u64>, buckets: nat) -> nat
    recommends
        buckets > 0,
{
    let needed = (largest(values) as nat + buckets - 1) as nat / buckets;
    if needed == 0 {
        1
    } else {
        needed
    }
}

/// The bucket that `value` falls into; the last one holds what is beyond it.
pub open spec fn bucket_of(value: u64, width: nat, buckets: nat) -> nat {
    let index = value as nat / width;
    if index < buckets {
        index
    } else {
        (buckets - 1) as nat
    }
}

/// How many of `values` fall into a bucket.
pub open spec fn bucket_count(values: Seq<u64>, width: nat, buckets: nat, bucket: nat) -> nat
    decreases values.len(),
{
    if values.len() == 0 {
        0
    } else {
        bucket_count(values.drop_last(), width, buckets, bucket) + if bucket_of(
            values.last(),
            width,
            buckets,
        ) == bucket {
            1nat
        } else {
            0
        }
    }
}

/// How many of `values` fall into each bucket.
pub open spec fn bucket_counts(values: Seq<u64>, buckets: nat) -> Seq<nat> {
    let width = bucket_width(values, buckets);
    Seq::new(buckets, |i: int| bucket_count(values, width, buckets, i as nat))
}

/// The largest of `counts`, zero for none.
pub open spec fn peak(counts: Seq<nat>) -> nat
    decreases counts.len(),
{
    if counts.len() == 0 {
        0
    } else if counts.last() > peak(counts.drop_last()) {
        counts.last()
    } else {
        peak(counts.drop_last())
    }
}

/// One line of a histogram: the limits of the bucket, a bar of at most fifty marks
/// and the count.
pub open spec fn bucket_line(index: nat, width: nat, count: nat, peak: nat) -> Seq<char> {
    "  "@ + right_aligned(ns_text(whole(index * width)), 10) + " - "@ + right_aligned(
        ns_text(whole((index + 1) * width)),
        10,
    ) + " | "@ + left_aligned(repeated('#', count * 50 / peak), 50) + " "@ + decimal(count) + "\n"@
}

/// The lines of the first `upto` buckets.
pub open spec fn bucket_lines(counts: Seq<nat>, width: nat, upto: nat) -> Seq<char>
    decreases upto,
{
    if upto == 0 {
        Seq::empty()
    } else {
        bucket_lines(counts, width, (upto - 1) as nat) + bucket_line(
            (upto - 1) as nat,
            width,
            counts[upto - 1],
            peak(counts),
        )
    }
}

/// A histogram of `values` under a title; nothing without values or buckets.
pub open spec fn histogram_text(title: Seq<char>, values: Seq<u64>, buckets: nat) -> Seq<char> {
    if values.len() == 0 || buckets == 0 {
        Seq::empty()
    } else {
        "\n"@ + title + "\n"@ + bucket_lines(
            bucket_counts(values, buckets),
            bucket_width(values, buckets),
            buckets,
        )
    }
}

/// The largest of `values`.
fn largest_of(values: &Vec<u64>) -> (max: u64)
    ensures
        max == largest(values@),
{
    let mut max: u64 = 0;
    let mut i: usize = 0;
    while i < values.len()
        invariant
            i <= values@.len(),
            max == largest(values@.take(i as int)),
        decreases values@.len() - i,
    {
        assert(values@.take(i + 1).drop_last() =~= values@.take(i as int));
        if values[i] > max {
            max = values[i];
        }
        i = i + 1;
    }
    assert(values@.take(i as int) =~= values@);
    max
}

/// Counts how many of `values` fall into each bucket.
fn count_buckets(values: &Vec<u64>, width: u64, buckets: usize) -> (counts: Vec<usize>)
    requires
        width > 0,
        buckets > 0,
    ensures
        counts@.len() == buckets,
        forall|b: int|
            0 <= b < buckets ==> #[trigger] counts@[b] == bucket_count(
                values@,
                width as nat,
                buckets as nat,
                b as nat,
            ),
{
    let mut counts: Vec<usize> = Vec::new();
    let mut b: usize = 0;
    while b < buckets
        invariant
            b <= buckets,
            counts@.len() == b,
            forall|j: int| 0 <= j < b ==> counts@[j] == 0,
        decreases buckets - b,
    {
        counts.push(0);
        b = b + 1;
    }
    let mut i: usize = 0;
    while i < values.len()
        invariant
            width > 0,
            buckets > 0,
            i <= values@.len(),
            counts@.len() == buckets,
            forall|b: int|
                0 <= b < buckets ==> #[trigger] counts@[b] == bucket_count(
                    values@.take(i as int),
                    width as nat,
                    buckets as nat,
                    b as nat,
                ),
        decreases values@.len() - i,
    {
        let ghost next = values@.take(i + 1);
        assert(next.drop_last() =~= values@.take(i as int));
        let place: u64 = values[i] / width;
        let index: usize = if place < buckets as u64 {
            place as usize
        } else {
            buckets - 1
        };
        proof {
            lemma_count_at_most(values@.take(i as int), width as nat, buckets as nat, index as nat);
        }
        let ghost before = counts@;
        let count: usize = counts[index];
        counts.set(index, count + 1);
        assert forall|b: int| 0 <= b < buckets implies #[trigger] counts@[b] == bucket_count(
            next,
            width as nat,
            buckets as nat,
            b as nat,
        ) by {
            assert(before[b] == bucket_count(
                values@.take(i as int),
                width as nat,
                buckets as nat,
                b as nat,
            ));
        }
        i = i + 1;
    }
    assert(values@.take(i as int) =~= values@);
    counts
}

/// No bucket holds more than there is.
proof fn lemma_count_at_most(values: Seq<u64>, width: nat, buckets: nat, bucket: nat)
    ensures
        bucket_count(values, width, buckets, bucket) <= values.len(),
    decreases values.len(),
{
    if values.len() > 0 {
        lemma_count_at_most(values.drop_last(), width, buckets, bucket);
    }
}

/// A sequence of machine counts as plain numbers.
pub open spec fn as_nats(counts: Seq<usize>) -> Seq<nat> {
    counts.map_values(|c: usize| c as nat)
}

/// The largest of `counts`.
fn peak_of(counts: &Vec<usize>) -> (max: usize)
    ensures
        max == peak(as_nats(counts@)),
{
    let mut max: usize = 0;
    let mut i: usize = 0;
    while i < counts.len()
        invariant
            i <= counts@.len(),
            max == peak(as_nats(counts@.take(i as int))),
        decreases counts@.len() - i,
    {
        proof {
            let next = as_nats(counts@.take(i + 1));
            assert(next.drop_last() =~= as_nats(counts@.take(i as int)));
            assert(next.last() == counts@[i as int]);
        }
        if counts[i] > max {
            max = counts[i];
        }
        i = i + 1;
    }
    assert(counts@.take(i as int) =~= counts@);
    max
}

/// Facts about the width of the buckets.
proof fn lemma_width(max: u64, buckets: nat)
    requires
        buckets > 0,
    ensures
        ({
            let needed = (max as nat + buckets - 1) as nat / buckets;
            &&& max <= buckets * needed <= max + buckets - 1
            &&& needed <= max
        }),
{
    let needed = (max as nat + buckets - 1) as nat / buckets;
    let n = max as nat + buckets - 1;
    vstd::arithmetic::div_mod::lemma_fundamental_div_mod(n as int, buckets as int);
    assert(0 <= n % (buckets as int) < buckets);
    assert(needed <= max) by (nonlinear_arith)
        requires
            buckets * needed <= max + buckets - 1,
            buckets > 0,
    ;
}

/// No count is above the peak.
proof fn lemma_peak(counts: Seq<nat>, i: int)
    requires
        0 <= i < counts.len(),
    ensures
        counts[i] <= peak(counts),
    decreases counts.len(),
{
    if i < counts.len() - 1 {
        lemma_peak(counts.drop_last(), i);
    }
}

/// With a value there is a bucket that is not empty.
proof fn lemma_peak_positive(values: Seq<u64>, width: nat, buckets: nat, counts: Seq<nat>)
    requires
        values.len() > 0,
        buckets > 0,
        counts.len() == buckets,
        forall|b: int|
            0 <= b < buckets ==> #[trigger] counts[b] == bucket_count(
                values,
                width,
                buckets,
                b as nat,
            ),
    ensures
        peak(counts) > 0,
{
    let bucket = bucket_of(values.last(), width, buckets);
    lemma_peak(counts, bucket as int);
}

/// One line of a histogram.
fn format_bucket(index: usize, width: u64, count: usize, peak: usize) -> (line: String)
    requires
        (index + 1) * width < 0x1_0000_0000_0000_0000_0000_0000,
        count <= peak,
        peak > 0,
    ensures
        line@ == bucket_line(index as nat, width as nat, count as nat, peak as nat),
{
    assert(index * width <= (index + 1) * width) by (nonlinear_arith);
    let low: u128 = index as u128 * width as u128;
    let high: u128 = (index as u128 + 1) * width as u128;
    let marks: u128 = count as u128 * 50 / peak as u128;
    assert(marks <= 50) by (nonlinear_arith)
        requires
            marks == (count * 50) as nat / peak as nat,
            count <= peak,
            peak > 0,
    ;
    proof {
        reveal_strlit("#");
    }
    let mut bar = String::new();
    push_repeated(&mut bar, "#", marks as usize);
    assert(bar@ =~= repeated('#', marks as nat));
    let mut line = "  ".to_owned();
    push_right_aligned(&mut line, format_whole_ns(low).as_str(), 10);
    line.append(" - ");
    push_right_aligned(&mut line, format_whole_ns(high).as_str(), 10);
    line.append(" | ");
    push_left_aligned(&mut line, bar.as_str(), 50);
    line.append(" ");
    push_decimal(&mut line, count as u128);
    line.append("\n");
    line
}

/// A histogram of `samples` under a title; nothing without samples or buckets.
pub fn histogram(title: &str, samples: &[Duration], buckets: usize) -> (text: String)
    ensures
        text@ == histogram_text(title@, sample_nanos(samples@), buckets as nat),
{
    if samples.len() == 0 || buckets == 0 {
        return String::new();
    }
    let values: Vec<u64> = nanos_of(samples);
    let max: u64 = largest_of(&values);
    proof {
        lemma_width(max, buckets as nat);
    }
    let needed: u64 = ((max as u128 + buckets as u128 - 1) / buckets as u128) as u64;
    let width: u64 = if needed == 0 {
        1
    } else {
        needed
    };
    let counts: Vec<usize> = count_buckets(&values, width, buckets);
    let top: usize = peak_of(&counts);
    let ghost nats = as_nats(counts@);
    proof {
        assert(nats =~= bucket_counts(values@, buckets as nat));
        lemma_peak_positive(values@, width as nat, buckets as nat, nats);
    }
    let mut text = "\n".to_owned();
    text.append(title);
    text.append("\n");
    let ghost head = text@;
    let mut i: usize = 0;
    assert(text@ =~= head + bucket_lines(nats, width as nat, 0));
    while i < buckets
        invariant
            i <= buckets,
            counts@.len() == buckets,
            nats == as_nats(counts@),
            top == peak(nats),
            top > 0,
            buckets * width <= u64::MAX + buckets || width == 1,
            text@ == head + bucket_lines(nats, width as nat, i as nat),
        decreases buckets - i,
    {
        proof {
            lemma_peak(nats, i as int);
            assert((i + 1) * width <= buckets * width) by (nonlinear_arith)
                requires
                    i + 1 <= buckets,
            ;
            assert((i + 1) * 1 == i + 1);
        }
        let line: String = format_bucket(i, width, counts[i], top);
        text.append(line.as_str());
        i = i + 1;
        assert(text@ =~= head + bucket_lines(nats, width as nat, i as nat));
    }
    text
}

/// The sum of `counts`.
pub open spec fn sum_of(counts: Seq<nat>) -> nat
    decreases counts.len(),
{
    if counts.len() == 0 {
        0
    } else {
        sum_of(counts.drop_last()) + counts.last()
    }
}

/// One more value is one more in the bucket it falls into.
proof fn lemma_one_more_value(values: Seq<u64>, width: nat, buckets: nat, upto: nat)
    requires
        values.len() > 0,
    ensures
        ({
            let all = Seq::new(upto, |i: int| bucket_count(values, width, buckets, i as nat));
            let before = Seq::new(
                upto,
                |i: int| bucket_count(values.drop_last(), width, buckets, i as nat),
            );
            sum_of(all) == sum_of(before) + if bucket_of(values.last(), width, buckets) < upto {
                1nat
            } else {
                0
            }
        }),
    decreases upto,
{
    if upto > 0 {
        let less = (upto - 1) as nat;
        lemma_one_more_value(values, width, buckets, less);
        let all = Seq::new(upto, |i: int| bucket_count(values, width, buckets, i as nat));
        let before = Seq::new(
            upto,
            |i: int| bucket_count(values.drop_last(), width, buckets, i as nat),
        );
        assert(all.drop_last() =~= Seq::new(
            less,
            |i: int| bucket_count(values, width, buckets, i as nat),
        ));
        assert(before.drop_last() =~= Seq::new(
            less,
            |i: int| bucket_count(values.drop_last(), width, buckets, i as nat),
        ));
    }
}

proof fn lemma_counts_add_up(values: Seq<u64>, width: nat, buckets: nat)
    requires
        buckets > 0,
    ensures
        sum_of(Seq::new(buckets, |i: int| bucket_count(values, width, buckets, i as nat)))
            == values.len(),
    decreases values.len(),
{
    let all = Seq::new(buckets, |i: int| bucket_count(values, width, buckets, i as nat));
    if values.len() == 0 {
        lemma_zeros(all);
    } else {
        lemma_counts_add_up(values.drop_last(), width, buckets);
        lemma_one_more_value(values, width, buckets, buckets);
    }
}

proof fn lemma_zeros(counts: Seq<nat>)
    requires
        forall|i: int| 0 <= i < counts.len() ==> counts[i] == 0,
    ensures
        sum_of(counts) == 0,
    decreases counts.len(),
{
    if counts.len() > 0 {
        lemma_zeros(counts.drop_last());
    }
}

/// Every sample is counted in one bucket: the counts add up to the number of
/// samples.
pub proof fn every_sample_is_counted_once(values: Seq<u64>, buckets: nat)
    requires
        buckets > 0,
    ensures
        sum_of(bucket_counts(values, buckets)) == values.len(),
{
    lemma_counts_add_up(values, bucket_width(values, buckets), buckets);
}

/// A sample lies between the limits of the bucket it is counted in, below the
/// upper one unless it is the largest.
pub proof fn sample_lies_in_its_bucket(values: Seq<u64>, buckets: nat, i: int)
    requires
        buckets > 0,
        0 <= i < values.len(),
    ensures
        ({
            let width = bucket_width(values, buckets);
            let bucket = bucket_of(values[i], width, buckets);
            &&& bucket < buckets
            &&& bucket * width <= values[i] <= (bucket + 1) * width
            &&& values[i] == (bucket + 1) * width ==> values[i] == largest(values)
        }),
{
    let value = values[i] as nat;
    let width = bucket_width(values, buckets);
    let bucket = bucket_of(values[i], width, buckets);
    lemma_largest(values, i);
    lemma_width(largest(values), buckets);
    let index = value / width;
    vstd::arithmetic::div_mod::lemma_fundamental_div_mod(value as int, width as int);
    assert(width * index <= value < width * (index + 1)) by (nonlinear_arith)
        requires
            value == width * index + value % width,
            0 <= value % width < width,
    ;
    assert(buckets * width >= largest(values)) by (nonlinear_arith)
        requires
            width >= 1,
            buckets >= 1,
            largest(values) <= buckets * ((largest(values) as nat + buckets - 1) as nat / buckets),
            width >= (largest(values) as nat + buckets - 1) as nat / buckets,
    ;
    assert(bucket * width == width * bucket && (bucket + 1) * width == width * (bucket + 1))
        by (nonlinear_arith);
    if index >= buckets {
        assert(width * buckets <= width * index) by (nonlinear_arith)
            requires
                buckets <= index,
        ;
        assert(width * buckets == buckets * width) by (nonlinear_arith);
        assert(width * bucket <= width * index) by (nonlinear_arith)
            requires
                bucket <= index,
        ;
    }
}

/// The buckets reach every sample and are no wider than that takes.
pub proof fn buckets_are_as_narrow_as_they_can_be(samples: Seq<Duration>, buckets: nat)
    requires
        buckets > 0,
        forall|i: int| 0 <= i < samples.len() ==> (#[trigger] samples[i])@ <= u64::MAX,
    ensures
        ({
            let width = bucket_width(sample_nanos(samples), buckets);
            &&& width >= 1
            &&& forall|i: int|
                0 <= i < samples.len() ==> (#[trigger] samples[i])@ <= width * buckets
            &&& width > 1 ==> exists|i: int|
                0 <= i < samples.len() && (#[trigger] samples[i])@ > (width - 1) * buckets
        }),
{
    let values = sample_nanos(samples);
    let width = bucket_width(values, buckets);
    let max = largest(values);
    lemma_width(max, buckets);
    let needed = (max as nat + buckets - 1) as nat / buckets;
    assert(width * buckets >= max) by (nonlinear_arith)
        requires
            max <= buckets * needed,
            width >= needed,
    ;
    assert forall|i: int| 0 <= i < samples.len() implies (#[trigger] samples[i])@ <= width
        * buckets by {
        lemma_largest(values, i);
        assert(values[i] == samples[i]@);
    }
    if width > 1 {
        assert(max > (width - 1) * buckets) by (nonlinear_arith)
            requires
                width == needed,
                buckets * needed <= max + buckets - 1,
        ;
        lemma_largest_is_there(values);
        let i = choose|i: int| 0 <= i < values.len() && values[i] == max;
        assert(samples[i]@ > (width - 1) * buckets);
    }
}

proof fn lemma_largest_is_there(values: Seq<u64>)
    ensures
        largest(values) > 0 ==> exists|i: int| 0 <= i < values.len() && values[i] == largest(values),
    decreases values.len(),
{
    if values.len() > 0 {
        let t = values.drop_last();
        lemma_largest_is_there(t);
        if largest(values) > 0 {
            if values.last() > largest(t) {
                assert(values[values.len() - 1] == largest(values));
            } else {
                let i = choose|i: int| 0 <= i < t.len() && t[i] == largest(t);
                assert(values[i] == largest(values));
            }
        }
    }
}

proof fn lemma_bucket_count_is_a_count(values: Seq<u64>, width: nat, buckets: nat, bucket: nat)
    ensures
        bucket_count(values, width, buckets, bucket) == values.filter(
            |v: u64| bucket_of(v, width, buckets) == bucket,
        ).len(),
    decreases values.len(),
{
    reveal(Seq::filter);
    if values.len() > 0 {
        lemma_bucket_count_is_a_count(values.drop_last(), width, buckets, bucket);
    }
}

/// The count of a bucket is the number of samples between its limits, the upper limit
/// being left out but for the last bucket, which holds all that is above.
pub proof fn a_bucket_counts_the_samples_between_its_limits(
    samples: Seq<Duration>,
    buckets: nat,
    bucket: nat,
)
    requires
        bucket < buckets,
        forall|i: int| 0 <= i < samples.len() ==> (#[trigger] samples[i])@ <= u64::MAX,
    ensures
        ({
            let width = bucket_width(sample_nanos(samples), buckets);
            bucket_counts(sample_nanos(samples), buckets)[bucket as int] == samples.filter(
                |d: Duration|
                    bucket * width <= d@ && (d@ < (bucket + 1) * width || bucket + 1 == buckets),
            ).len()
        }),
{
    let values = sample_nanos(samples);
    let width = bucket_width(values, buckets);
    let clamp = |d: Duration| crate::duration::clamp_u64(d@);
    let falls = |v: u64| bucket_of(v, width, buckets) == bucket;
    let falls_span = |d: Duration|
        bucket_of(crate::duration::clamp_u64(d@), width, buckets) == bucket;
    let between = |d: Duration|
        bucket * width <= d@ && (d@ < (bucket + 1) * width || bucket + 1 == buckets);
    lemma_bucket_count_is_a_count(values, width, buckets, bucket);
    lemma_count_mapped(samples, clamp, falls, falls_span);
    assert forall|i: int| 0 <= i < samples.len() implies falls_span(#[trigger] samples[i])
        == between(samples[i]) by {
        let v = samples[i]@;
        let index = v / width;
        vstd::arithmetic::div_mod::lemma_fundamental_div_mod(v as int, width as int);
        assert(width * index <= v < width * (index + 1)) by (nonlinear_arith)
            requires
                v == width * index + v % width,
                0 <= v % width < width,
        ;
        assert(index < bucket ==> v < bucket * width) by (nonlinear_arith)
            requires
                v < width * (index + 1),
        ;
        assert(index >= bucket ==> bucket * width <= v) by (nonlinear_arith)
            requires
                width * index <= v,
        ;
        assert(index <= bucket ==> v < (bucket + 1) * width) by (nonlinear_arith)
            requires
                v < width * (index + 1),
        ;
        assert(index > bucket ==> (bucket + 1) * width <= v) by (nonlinear_arith)
            requires
                width * index <= v,
        ;
    }
    lemma_count_same(samples, falls_span, between);
}

/// The peak is the count of a bucket, and no bucket counts more.
pub proof fn the_peak_is_the_largest_count(counts: Seq<nat>)
    ensures
        forall|i: int| 0 <= i < counts.len() ==> #[trigger] counts[i] <= peak(counts),
        counts.len() > 0 ==> counts.contains(peak(counts)),
    decreases counts.len(),
{
    assert forall|i: int| 0 <= i < counts.len() implies #[trigger] counts[i] <= peak(counts) by {
        lemma_peak(counts, i);
    }
    if counts.len() > 0 {
        let t = counts.drop_last();
        the_peak_is_the_largest_count(t);
        if counts.last() > peak(t) || t.len() == 0 {
            assert(counts[counts.len() - 1] == peak(counts));
        } else {
            let i = choose|i: int| 0 <= i < t.len() && t[i] == peak(t);
            assert(counts[i] == peak(counts));
        }
    }
}

/// A histogram shows each bucket on a line of its own: its limits, a bar that is to fifty
/// marks as the count is to the peak, and the count.
pub proof fn histogram_shows_each_bucket(
    title: Seq<char>,
    values: Seq<u64>,
    buckets: nat,
    bucket: nat,
    marks: nat,
)
    requires
        values.len() > 0,
        bucket < buckets,
        ({
            let counts = bucket_counts(values, buckets);
            marks * peak(counts) <= counts[bucket as int] * 50 < (marks + 1) * peak(counts)
        }),
    ensures
        ({
            let width = bucket_width(values, buckets);
            let count = bucket_counts(values, buckets)[bucket as int];
            let text = histogram_text(title, values, buckets);
            &&& holds_part(text, "\n"@ + title + "\n"@)
            &&& holds_part(
                text,
                "  "@ + right_aligned(ns_text(whole(bucket * width)), 10) + " - "@ + right_aligned(
                    ns_text(whole((bucket + 1) * width)),
                    10,
                ) + " | "@ + left_aligned(repeated('#', marks), 50) + " "@ + decimal(count)
                    + "\n"@,
            )
        }),
{
    let width = bucket_width(values, buckets);
    let counts = bucket_counts(values, buckets);
    let count = counts[bucket as int];
    let top = peak(counts);
    let head = "\n"@ + title + "\n"@;
    let rows = bucket_lines(counts, width, buckets);
    assert(count * 50 / top == marks) by {
        vstd::arithmetic::div_mod::lemma_fundamental_div_mod((count * 50) as int, top as int);
        let q = count * 50 / top;
        let r = count * 50 % top;
        assert(top > 0) by (nonlinear_arith)
            requires
                marks * top < (marks + 1) * top,
        ;
        assert(q == marks) by (nonlinear_arith)
            requires
                count * 50 == top * q + r,
                0 <= r < top,
                marks * top <= count * 50 < (marks + 1) * top,
        ;
    }
    let line = bucket_line(bucket, width, count, top);
    lemma_line_is_there(counts, width, buckets, bucket);
    lemma_part_between(Seq::empty(), head, rows);
    assert(Seq::<char>::empty() + head =~= head);
    let i = choose|i: int|
        0 <= i <= i + line.len() <= rows.len() && #[trigger] rows.subrange(i, i + line.len())
            == line;
    let text = head + rows;
    let j = head.len() + i;
    assert(text.subrange(j, j + line.len()) =~= rows.subrange(i, i + line.len()));
}

proof fn lemma_line_is_there(counts: Seq<nat>, width: nat, upto: nat, bucket: nat)
    requires
        bucket < upto,
    ensures
        holds_part(
            bucket_lines(counts, width, upto),
            bucket_line(bucket, width, counts[bucket as int], peak(counts)),
        ),
    decreases upto,
{
    let before = bucket_lines(counts, width, (upto - 1) as nat);
    let last = bucket_line((upto - 1) as nat, width, counts[upto - 1], peak(counts));
    if bucket == upto - 1 {
        lemma_part_between(before, last, Seq::empty());
        assert(before + last + Seq::<char>::empty() =~= before + last);
    } else {
        lemma_line_is_there(counts, width, (upto - 1) as nat, bucket);
        lemma_part_stays(
            before,
            bucket_line(bucket, width, counts[bucket as int], peak(counts)),
            last,
        );
    }
}

/// No value is above the largest.
proof fn lemma_largest(values: Seq<u64>, i: int)
    requires
        0 <= i < values.len(),
    ensures
        values[i] <= largest(values),
    decreases values.len(),
{
    if i < values.len() - 1 {
        lemma_largest(values.drop_last(), i);
    }
}

} // verus!
