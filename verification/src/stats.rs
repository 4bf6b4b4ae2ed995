//! Latency statistics.

use vstd::arithmetic::power2::{
    lemma2_to64, lemma2_to64_rest, lemma_pow2_adds, lemma_pow2_strictly_increases, pow2,
};
use vstd::prelude::*;
use vstd::relations::total_ordering;

use crate::accuracy::{
    amount, at_least_compares_amounts, lemma_amount_of_zero, lemma_divides, near,
    quotients_are_near, whole_numbers_are_kept,
};
use crate::counting::{lemma_count_first, lemma_count_ignores_order, lemma_count_mapped};
use crate::double::{at_least, fixed, quotient, whole, Binary, Double};
use crate::duration::{clamp_u64, Duration};
use crate::nearness::{fixed_point_text_is_the_nearest, whole_quotients_are_near};
use crate::text::{
    decimal, ends_with, holds_part, lemma_labelled, lemma_part_stays, lemma_parts_stay,
    padded_decimal,
};

verus! {

/// Whether `s` never goes down.
pub open spec fn is_ascending(s: Seq<u64>) -> bool {
    forall|i: int, j: int| 0 <= i <= j < s.len() ==> s[i] <= s[j]
}

/// The items of `s` from smallest to largest.
pub open spec fn ascending(s: Seq<u64>) -> Seq<u64> {
    s.sort_by(|a: u64, b: u64| a <= b)
}

/// Sorting keeps the items and puts them in order.
pub proof fn lemma_ascending(s: Seq<u64>)
    ensures
        is_ascending(ascending(s)),
        ascending(s).to_multiset() == s.to_multiset(),
        ascending(s).len() == s.len(),
{
    let leq = |a: u64, b: u64| a <= b;
    assert(total_ordering(leq));
    s.lemma_sort_by_ensures(leq);
    s.to_multiset_ensures();
    let t = ascending(s);
    t.to_multiset_ensures();
    assert forall|i: int, j: int| 0 <= i <= j < t.len() implies t[i] <= t[j] by {
        if i < j {
            assert(leq(t[i], t[j]));
        }
    }
}

/// Two ascending sequences of the same items are the same sequence.
proof fn lemma_ascending_unique(a: Seq<u64>, b: Seq<u64>)
    requires
        is_ascending(a),
        is_ascending(b),
        a.to_multiset() == b.to_multiset(),
    ensures
        a == b,
    decreases a.len(),
{
    a.to_multiset_ensures();
    b.to_multiset_ensures();
    if a.len() > 0 {
        let last = a.len() - 1;
        assert(a.to_multiset().count(a[last]) > 0);
        assert(b.to_multiset().count(b[last]) > 0);
        assert(a.contains(b[last]) && b.contains(a[last]));
        assert(a[last] == b[last]);
        assert(a.remove(last) =~= a.drop_last());
        assert(b.remove(last) =~= b.drop_last());
        lemma_ascending_unique(a.drop_last(), b.drop_last());
        assert(a =~= a.drop_last().push(a[last]));
        assert(b =~= b.drop_last().push(b[last]));
    }
}

/// Sorts `values` in place with the standard library's `sort_unstable`: the
/// same items remain, from smallest to largest.
#[verifier::external_body]
fn sort_values(values: &mut Vec<u64>)
    ensures
        final(values)@.to_multiset() == old(values)@.to_multiset(),
        is_ascending(final(values)@),
{
    values.sort_unstable();
}

/// The place, counted from zero, of the nearest-rank percentile among `len`
/// sorted samples: the first place with `per_mille / 1000` of the samples at or
/// before it.
pub open spec fn nearest_rank(len: nat, per_mille: nat) -> nat
    recommends
        len > 0,
{
    let rank = (per_mille * len + 999) / 1000;
    if rank == 0 {
        0
    } else if rank > len {
        (len - 1) as nat
    } else {
        (rank - 1) as nat
    }
}

/// Nearest-rank percentile of sorted samples, at `per_mille` thousandths. This
/// makes the tail samples visible instead of interpolating them away in a
/// relatively short benchmark.
pub fn percentile(sorted: &[u64], per_mille: u64) -> (value: u64)
    requires
        sorted@.len() > 0,
    ensures
        value == sorted@[nearest_rank(sorted@.len(), per_mille as nat) as int],
        sorted@.contains(value),
{
    let len: u128 = sorted.len() as u128;
    proof {
        assert(per_mille * len <= u64::MAX * u64::MAX) by (nonlinear_arith)
            requires
                per_mille <= u64::MAX,
                len <= u64::MAX,
        ;
    }
    let rank: u128 = (per_mille as u128 * len + 999) / 1000;
    let place: u128 = if rank == 0 {
        0
    } else if rank > len {
        len - 1
    } else {
        rank - 1
    };
    sorted[place as usize]
}

/// The sum of `values`.
pub open spec fn total(values: Seq<u64>) -> nat
    decreases values.len(),
{
    if values.len() == 0 {
        0
    } else {
        total(values.drop_last()) + values.last() as nat
    }
}

/// Taking a value out takes it off the total.
proof fn lemma_total_without(values: Seq<u64>, i: int)
    requires
        0 <= i < values.len(),
    ensures
        total(values) == total(values.remove(i)) + values[i],
    decreases values.len(),
{
    let last = values.len() - 1;
    if i == last {
        assert(values.remove(i) =~= values.drop_last());
    } else {
        lemma_total_without(values.drop_last(), i);
        assert(values.remove(i).drop_last() =~= values.drop_last().remove(i));
    }
}

/// The same values have the same total in any order.
proof fn lemma_total_ignores_order(a: Seq<u64>, b: Seq<u64>)
    requires
        a.to_multiset() == b.to_multiset(),
    ensures
        total(a) == total(b),
    decreases a.len(),
{
    a.to_multiset_ensures();
    b.to_multiset_ensures();
    if a.len() > 0 {
        let last = a.len() - 1;
        assert(a.to_multiset().count(a[last]) > 0);
        assert(b.contains(a[last]));
        let i = choose|i: int| 0 <= i < b.len() && b[i] == a[last];
        assert(a.remove(last) =~= a.drop_last());
        lemma_total_ignores_order(a.drop_last(), b.remove(i));
        lemma_total_without(b, i);
    }
}

/// The samples in nanoseconds, each cut off at the largest 64-bit count.
pub open spec fn sample_nanos(samples: Seq<Duration>) -> Seq<u64> {
    samples.map_values(|d: Duration| clamp_u64(d@))
}

/// The samples in nanoseconds, in their order.
pub(crate) fn nanos_of(samples: &[Duration]) -> (values: Vec<u64>)
    ensures
        values@ == sample_nanos(samples@),
{
    let mut values: Vec<u64> = Vec::new();
    let mut i: usize = 0;
    while i < samples.len()
        invariant
            i <= samples.len(),
            values@ == sample_nanos(samples@).take(i as int),
        decreases samples.len() - i,
    {
        values.push(samples[i].clamped_nanos());
        i = i + 1;
        assert(values@ =~= sample_nanos(samples@).take(i as int));
    }
    assert(values@ =~= sample_nanos(samples@));
    values
}

/// The mean of 64-bit values.
#[derive(Clone, Copy, Debug, PartialEq, Eq, Structural)]
pub struct Mean {
    value: Double,
}

impl View for Mean {
    type V = Binary;

    closed spec fn view(&self) -> Binary {
        self.value@
    }
}

impl Mean {
    #[verifier::type_invariant]
    spec fn well_formed(self) -> bool {
        -181 <= self.value@.exponent <= 14
    }

    /// The mean as a number.
    pub(crate) fn number(&self) -> (value: Double)
        ensures
            value@ == self@,
            -181 <= value@.exponent <= 14,
    {
        proof {
            use_type_invariant(self);
        }
        self.value
    }
}

/// What a set of samples looks like at a glance, in nanoseconds.
#[derive(Clone, Copy, Debug)]
pub struct Summary {
    pub min: u64,
    pub average: Mean,
    pub median: u64,
    pub p90: u64,
    pub p95: u64,
    pub p99: u64,
    pub p999: u64,
    pub max: u64,
}

/// The nearest-rank percentile of unsorted `values`.
pub open spec fn percentile_of(values: Seq<u64>, per_mille: nat) -> u64 {
    ascending(values)[nearest_rank(values.len(), per_mille) as int]
}

/// The arithmetic mean of `values`, with its sum, their number and the result
/// each rounded.
pub open spec fn mean(values: Seq<u64>) -> Binary {
    quotient(whole(total(values)), whole(values.len()))
}

impl Summary {
    /// Whether `self` summarises `values`.
    pub open spec fn describes(self, values: Seq<u64>) -> bool {
        let sorted = ascending(values);
        &&& self.min == sorted.first()
        &&& self.average@ == mean(values)
        &&& self.median == percentile_of(values, 500)
        &&& self.p90 == percentile_of(values, 900)
        &&& self.p95 == percentile_of(values, 950)
        &&& self.p99 == percentile_of(values, 990)
        &&& self.p999 == percentile_of(values, 999)
        &&& self.max == sorted.last()
    }

    /// Summarises `samples`; there is nothing to say of no samples.
    pub fn from_samples(samples: &[Duration]) -> (summary: Option<Summary>)
        ensures
            summarises(summary, samples@),
    {
        if samples.len() == 0 {
            return None;
        }
        let mut values: Vec<u64> = nanos_of(samples);
        let ghost unsorted = values@;
        sort_values(&mut values);
        proof {
            lemma_ascending(unsorted);
            lemma_ascending_unique(values@, ascending(unsorted));
            lemma_total_ignores_order(values@, unsorted);
        }
        let sum: u128 = sum_of(&values);
        let average = average_of(sum, values.len());
        Some(
            Summary {
                min: values[0],
                average,
                median: percentile(values.as_slice(), 500),
                p90: percentile(values.as_slice(), 900),
                p95: percentile(values.as_slice(), 950),
                p99: percentile(values.as_slice(), 990),
                p999: percentile(values.as_slice(), 999),
                max: values[values.len() - 1],
            },
        )
    }
}

/// Whether `summary` is the summary of `samples`.
pub open spec fn summarises(summary: Option<Summary>, samples: Seq<Duration>) -> bool {
    &&& summary is None <==> samples.len() == 0
    &&& summary matches Some(s) ==> s.describes(sample_nanos(samples))
}

/// The sum of `values`.
fn sum_of(values: &Vec<u64>) -> (sum: u128)
    ensures
        sum == total(values@),
        sum <= values@.len() * u64::MAX,
{
    let mut sum: u128 = 0;
    let mut i: usize = 0;
    while i < values.len()
        invariant
            i <= values.len(),
            sum == total(values@.take(i as int)),
            sum <= i * u64::MAX,
        decreases values.len() - i,
    {
        assert(i * u64::MAX <= usize::MAX * u64::MAX) by (nonlinear_arith)
            requires
                i <= usize::MAX,
        ;
        assert(values@.take(i + 1).drop_last() =~= values@.take(i as int));
        assert((i + 1) * u64::MAX == i * u64::MAX + u64::MAX) by (nonlinear_arith);
        sum = sum + values[i] as u128;
        i = i + 1;
    }
    assert(values@.take(i as int) =~= values@);
    sum
}

/// A mean of 64-bit values is no larger than about a 64-bit value.
proof fn lemma_average_magnitude(sum: nat, len: nat, total: int, count: int)
    requires
        sum <= len * u64::MAX,
        total + 53 >= 0,
        count + 53 >= 0,
        pow2((total + 53) as nat) <= 4 * sum,
        len < pow2((count + 53) as nat),
    ensures
        total - count <= 65,
{
    let t = pow2((total + 53) as nat);
    let c = pow2((count + 53) as nat);
    if total - count >= 66 {
        lemma2_to64();
        lemma2_to64_rest();
        lemma_pow2_adds(64, 2);
        lemma_pow2_adds((count + 53) as nat, 66);
        if total - count > 66 {
            lemma_pow2_strictly_increases((count + 53 + 66) as nat, (total + 53) as nat);
        }
        assert(false) by (nonlinear_arith)
            requires
                t >= c * (4 * 0x1_0000_0000_0000_0000),
                t <= 4 * sum,
                sum <= len * u64::MAX,
                len < c,
        ;
    }
}

/// The mean of `len` values that sum to `sum`.
fn average_of(sum: u128, len: usize) -> (average: Mean)
    requires
        len > 0,
        sum <= len * u64::MAX,
    ensures
        average@ == quotient(whole(sum as nat), whole(len as nat)),
{
    assert(len * u64::MAX < u128::MAX) by (nonlinear_arith)
        requires
            len <= u64::MAX,
    ;
    let total = Double::from_u128(sum);
    let count = Double::from_u128(len as u128);
    proof {
        if sum > 0 {
            lemma_average_magnitude(sum as nat, len as nat, total@.exponent, count@.exponent);
        }
    }
    Mean { value: total.div(&count) }
}

/// `ns` nanoseconds in the largest unit of which it is at least one, with three
/// digits after the point for units above the nanosecond.
pub open spec fn ns_text(ns: Binary) -> Seq<char> {
    if at_least(ns, 1_000_000_000) {
        fixed(quotient(ns, whole(1_000_000_000)), 3) + " s"@
    } else if at_least(ns, 1_000_000) {
        fixed(quotient(ns, whole(1_000_000)), 3) + " ms"@
    } else if at_least(ns, 1_000) {
        fixed(quotient(ns, whole(1_000)), 3) + " us"@
    } else {
        fixed(ns, 0) + " ns"@
    }
}

/// `ns / unit`, with three digits after the point.
fn in_unit(ns: &Double, unit: u64) -> (text: String)
    requires
        unit > 0,
        ns@.exponent <= 50,
        ns@.exponent >= -300,
    ensures
        text@ == fixed(quotient(ns@, whole(unit as nat)), 3),
{
    ns.div(&Double::from_u128(unit as u128)).to_fixed(3)
}

/// `ns` nanoseconds in a readable unit.
fn format_ns(ns: &Double) -> (text: String)
    requires
        -300 <= ns@.exponent <= 50,
    ensures
        text@ == ns_text(ns@),
{
    if ns.at_least(1_000_000_000) {
        in_unit(ns, 1_000_000_000).concat(" s")
    } else if ns.at_least(1_000_000) {
        in_unit(ns, 1_000_000).concat(" ms")
    } else if ns.at_least(1_000) {
        in_unit(ns, 1_000).concat(" us")
    } else {
        ns.to_fixed(0).concat(" ns")
    }
}

/// `ns` nanoseconds in a readable unit.
pub(crate) fn format_whole_ns(ns: u128) -> (text: String)
    requires
        ns < 0x1_0000_0000_0000_0000_0000_0000,
    ensures
        text@ == ns_text(whole(ns as nat)),
{
    format_ns(&Double::from_u128(ns))
}

/// A span in a readable unit.
pub fn format_duration(duration: Duration) -> (text: String)
    ensures
        text@ == ns_text(whole(duration@)),
{
    format_whole_ns(duration.as_nanos())
}

/// `ns` nanoseconds in milliseconds.
pub open spec fn ms_text(ns: Binary) -> Seq<char> {
    fixed(quotient(ns, whole(1_000_000)), 3) + " ms"@
}

/// `ns` nanoseconds in milliseconds.
pub(crate) fn in_milliseconds(ns: &Double) -> (text: String)
    requires
        -300 <= ns@.exponent <= 50,
    ensures
        text@ == ms_text(ns@),
{
    in_unit(ns, 1_000_000).concat(" ms")
}

/// A summary on one line.
pub open spec fn compact_text(summary: Option<Summary>) -> Seq<char> {
    match summary {
        None => "no data"@,
        Some(s) => "mean="@ + ms_text(s.average@) + " p50="@ + ms_text(whole(s.median as nat))
            + " p90="@ + ms_text(whole(s.p90 as nat)) + " p95="@ + ms_text(whole(s.p95 as nat))
            + " p99="@ + ms_text(whole(s.p99 as nat)) + " max="@ + ms_text(whole(s.max as nat)),
    }
}

/// Appends `ns` nanoseconds in milliseconds, behind a label.
fn push_labelled_ms(out: &mut String, label: &str, ns: &Double)
    requires
        -300 <= ns@.exponent <= 50,
    ensures
        final(out)@ == old(out)@ + label@ + ms_text(ns@),
{
    out.append(label);
    out.append(in_milliseconds(ns).as_str());
}

/// A summary on one line.
pub fn compact_summary(summary: Option<Summary>) -> (text: String)
    ensures
        text@ == compact_text(summary),
{
    match summary {
        None => "no data".to_owned(),
        Some(s) => {
            let mut text = String::new();
            push_labelled_ms(&mut text, "mean=", &s.average.number());
            push_labelled_ms(&mut text, " p50=", &Double::from_u128(s.median as u128));
            push_labelled_ms(&mut text, " p90=", &Double::from_u128(s.p90 as u128));
            push_labelled_ms(&mut text, " p95=", &Double::from_u128(s.p95 as u128));
            push_labelled_ms(&mut text, " p99=", &Double::from_u128(s.p99 as u128));
            push_labelled_ms(&mut text, " max=", &Double::from_u128(s.max as u128));
            text
        },
    }
}

/// The line of a summary shows each figure behind its own label.
pub proof fn compact_line_labels_its_figures(s: Summary)
    ensures
        ({
            let line = compact_text(Some(s));
            &&& line.len() >= 5 && line.take(5) == "mean="@
            &&& holds_part(line, "mean="@ + ms_text(s.average@) + " p50="@)
            &&& holds_part(line, " p50="@ + ms_text(whole(s.median as nat)) + " p90="@)
            &&& holds_part(line, " p90="@ + ms_text(whole(s.p90 as nat)) + " p95="@)
            &&& holds_part(line, " p95="@ + ms_text(whole(s.p95 as nat)) + " p99="@)
            &&& holds_part(line, " p99="@ + ms_text(whole(s.p99 as nat)) + " max="@)
            &&& ends_with(line, " max="@ + ms_text(whole(s.max as nat)))
        }),
        compact_text(None) == "no data"@,
{
    reveal_strlit("mean=");
    let none = Seq::<char>::empty();
    let v0 = ms_text(s.average@);
    let v1 = ms_text(whole(s.median as nat));
    let v2 = ms_text(whole(s.p90 as nat));
    let v3 = ms_text(whole(s.p95 as nat));
    let v4 = ms_text(whole(s.p99 as nat));
    let v5 = ms_text(whole(s.max as nat));
    let l0 = "mean="@;
    let t1 = l0 + v0 + " p50="@;
    let t2 = t1 + v1 + " p90="@;
    let t3 = t2 + v2 + " p95="@;
    let t4 = t3 + v3 + " p99="@;
    let t5 = t4 + v4 + " max="@;
    let line = t5 + v5;
    assert(line == compact_text(Some(s)));
    lemma_labelled(none, l0, v0, " p50="@);
    assert(none + l0 =~= l0);
    lemma_labelled(l0 + v0, " p50="@, v1, " p90="@);
    lemma_labelled(t1 + v1, " p90="@, v2, " p95="@);
    lemma_labelled(t2 + v2, " p95="@, v3, " p99="@);
    lemma_labelled(t3 + v3, " p99="@, v4, " max="@);
    lemma_part_stays(t1, l0 + v0 + " p50="@, v1);
    lemma_part_stays(t1 + v1, l0 + v0 + " p50="@, " p90="@);
    lemma_parts_stay(t2, l0 + v0 + " p50="@, v2, " p95="@);
    lemma_parts_stay(t3, l0 + v0 + " p50="@, v3, " p99="@);
    lemma_parts_stay(t4, l0 + v0 + " p50="@, v4, " max="@);
    lemma_part_stays(t5, l0 + v0 + " p50="@, v5);
    lemma_parts_stay(t2, " p50="@ + v1 + " p90="@, v2, " p95="@);
    lemma_parts_stay(t3, " p50="@ + v1 + " p90="@, v3, " p99="@);
    lemma_parts_stay(t4, " p50="@ + v1 + " p90="@, v4, " max="@);
    lemma_part_stays(t5, " p50="@ + v1 + " p90="@, v5);
    lemma_parts_stay(t3, " p90="@ + v2 + " p95="@, v3, " p99="@);
    lemma_parts_stay(t4, " p90="@ + v2 + " p95="@, v4, " max="@);
    lemma_part_stays(t5, " p90="@ + v2 + " p95="@, v5);
    lemma_parts_stay(t4, " p95="@ + v3 + " p99="@, v4, " max="@);
    lemma_part_stays(t5, " p95="@ + v3 + " p99="@, v5);
    lemma_part_stays(t5, " p99="@ + v4 + " max="@, v5);
    assert(t1.take(5) =~= l0);
    assert(t2.take(5) =~= t1.take(5));
    assert(t3.take(5) =~= t2.take(5));
    assert(t4.take(5) =~= t3.take(5));
    assert(t5.take(5) =~= t4.take(5));
    assert(line.take(5) =~= t5.take(5));
    let end = " max="@ + v5;
    assert(line =~= t4 + v4 + end);
    assert(line.skip(line.len() - end.len()) =~= end);
}

/// A summary of `values` in full, under a title.
pub open spec fn summary_text(title: Seq<char>, values: Seq<u64>) -> Seq<char> {
    let head = "\n"@ + title + "\n"@;
    if values.len() == 0 {
        head + "  no samples\n"@
    } else {
        head + "  minimum: "@ + ns_text(whole(ascending(values).first() as nat))
            + "\n  average: "@ + ns_text(mean(values)) + "\n  median:  "@ + ns_text(
            whole(percentile_of(values, 500) as nat),
        ) + "\n  p95:     "@ + ns_text(whole(percentile_of(values, 950) as nat))
            + "\n  p99:     "@ + ns_text(whole(percentile_of(values, 990) as nat))
            + "\n  p99.9:   "@ + ns_text(whole(percentile_of(values, 999) as nat))
            + "\n  maximum: "@ + ns_text(whole(ascending(values).last() as nat)) + "\n"@
    }
}

/// Appends a label and `ns` nanoseconds in a readable unit.
fn push_labelled_ns(out: &mut String, label: &str, ns: u64)
    ensures
        final(out)@ == old(out)@ + label@ + ns_text(whole(ns as nat)),
{
    out.append(label);
    out.append(format_whole_ns(ns as u128).as_str());
}

/// A summary of `samples` in full, under a title.
pub fn summary_report(title: &str, samples: &[Duration]) -> (text: String)
    ensures
        text@ == summary_text(title@, sample_nanos(samples@)),
{
    let mut text = "\n".to_owned();
    text.append(title);
    text.append("\n");
    match Summary::from_samples(samples) {
        None => {
            text.append("  no samples\n");
        },
        Some(s) => {
            push_labelled_ns(&mut text, "  minimum: ", s.min);
            text.append("\n  average: ");
            text.append(format_ns(&s.average.number()).as_str());
            push_labelled_ns(&mut text, "\n  median:  ", s.median);
            push_labelled_ns(&mut text, "\n  p95:     ", s.p95);
            push_labelled_ns(&mut text, "\n  p99:     ", s.p99);
            push_labelled_ns(&mut text, "\n  p99.9:   ", s.p999);
            push_labelled_ns(&mut text, "\n  maximum: ", s.max);
            text.append("\n");
        },
    }
    text
}

/// A summary in full shows each figure behind its own label, under its title.
pub proof fn summary_labels_its_figures(title: Seq<char>, values: Seq<u64>, s: Summary)
    requires
        values.len() > 0,
        s.describes(values),
    ensures
        ({
            let text = summary_text(title, values);
            &&& holds_part(text, "\n"@ + title + "\n"@)
            &&& holds_part(text, "  minimum: "@ + ns_text(whole(s.min as nat)) + "\n  average: "@)
            &&& holds_part(text, "\n  average: "@ + ns_text(s.average@) + "\n  median:  "@)
            &&& holds_part(
                text,
                "\n  median:  "@ + ns_text(whole(s.median as nat)) + "\n  p95:     "@,
            )
            &&& holds_part(
                text,
                "\n  p95:     "@ + ns_text(whole(s.p95 as nat)) + "\n  p99:     "@,
            )
            &&& holds_part(
                text,
                "\n  p99:     "@ + ns_text(whole(s.p99 as nat)) + "\n  p99.9:   "@,
            )
            &&& holds_part(
                text,
                "\n  p99.9:   "@ + ns_text(whole(s.p999 as nat)) + "\n  maximum: "@,
            )
            &&& holds_part(text, "\n  maximum: "@ + ns_text(whole(s.max as nat)) + "\n"@)
        }),
        summary_text(title, Seq::empty()) == "\n"@ + title + "\n"@ + "  no samples\n"@,
{
    let none = Seq::<char>::empty();
    let nl = "\n"@;
    let v0 = ns_text(whole(s.min as nat));
    let v1 = ns_text(s.average@);
    let v2 = ns_text(whole(s.median as nat));
    let v3 = ns_text(whole(s.p95 as nat));
    let v4 = ns_text(whole(s.p99 as nat));
    let v5 = ns_text(whole(s.p999 as nat));
    let v6 = ns_text(whole(s.max as nat));
    let l0 = "  minimum: "@;
    let l1 = "\n  average: "@;
    let l2 = "\n  median:  "@;
    let l3 = "\n  p95:     "@;
    let l4 = "\n  p99:     "@;
    let l5 = "\n  p99.9:   "@;
    let l6 = "\n  maximum: "@;
    let head = nl + title + nl;
    let t1 = head + l0 + v0 + l1;
    let t2 = t1 + v1 + l2;
    let t3 = t2 + v2 + l3;
    let t4 = t3 + v3 + l4;
    let t5 = t4 + v4 + l5;
    let t6 = t5 + v5 + l6;
    let t7 = t6 + v6 + nl;
    assert(t7 == summary_text(title, values));
    lemma_labelled(none, nl, title, nl);
    assert(none + nl =~= nl);
    lemma_part_stays(head, head, l0);
    lemma_parts_stay(head + l0, head, v0, l1);
    lemma_parts_stay(t1, head, v1, l2);
    lemma_parts_stay(t2, head, v2, l3);
    lemma_parts_stay(t3, head, v3, l4);
    lemma_parts_stay(t4, head, v4, l5);
    lemma_parts_stay(t5, head, v5, l6);
    lemma_parts_stay(t6, head, v6, nl);
    lemma_labelled(head, l0, v0, l1);
    lemma_labelled(head + l0 + v0, l1, v1, l2);
    lemma_labelled(t1 + v1, l2, v2, l3);
    lemma_labelled(t2 + v2, l3, v3, l4);
    lemma_labelled(t3 + v3, l4, v4, l5);
    lemma_labelled(t4 + v4, l5, v5, l6);
    lemma_labelled(t5 + v5, l6, v6, nl);
    lemma_parts_stay(t1, l0 + v0 + l1, v1, l2);
    lemma_parts_stay(t2, l0 + v0 + l1, v2, l3);
    lemma_parts_stay(t3, l0 + v0 + l1, v3, l4);
    lemma_parts_stay(t4, l0 + v0 + l1, v4, l5);
    lemma_parts_stay(t5, l0 + v0 + l1, v5, l6);
    lemma_parts_stay(t6, l0 + v0 + l1, v6, nl);
    lemma_parts_stay(t2, l1 + v1 + l2, v2, l3);
    lemma_parts_stay(t3, l1 + v1 + l2, v3, l4);
    lemma_parts_stay(t4, l1 + v1 + l2, v4, l5);
    lemma_parts_stay(t5, l1 + v1 + l2, v5, l6);
    lemma_parts_stay(t6, l1 + v1 + l2, v6, nl);
    lemma_parts_stay(t3, l2 + v2 + l3, v3, l4);
    lemma_parts_stay(t4, l2 + v2 + l3, v4, l5);
    lemma_parts_stay(t5, l2 + v2 + l3, v5, l6);
    lemma_parts_stay(t6, l2 + v2 + l3, v6, nl);
    lemma_parts_stay(t4, l3 + v3 + l4, v4, l5);
    lemma_parts_stay(t5, l3 + v3 + l4, v5, l6);
    lemma_parts_stay(t6, l3 + v3 + l4, v6, nl);
    lemma_parts_stay(t5, l4 + v4 + l5, v5, l6);
    lemma_parts_stay(t6, l4 + v4 + l5, v6, nl);
    lemma_parts_stay(t6, l5 + v5 + l6, v6, nl);
}

/// A summary depends on which samples there are, and not on their order.
pub proof fn summary_ignores_order(a: Seq<u64>, b: Seq<u64>, s: Summary)
    requires
        a.to_multiset() == b.to_multiset(),
    ensures
        s.describes(a) <==> s.describes(b),
{
    lemma_ascending(a);
    lemma_ascending(b);
    lemma_ascending_unique(ascending(a), ascending(b));
    lemma_total_ignores_order(a, b);
    a.to_multiset_ensures();
    b.to_multiset_ensures();
}

/// There is one summary of the same samples.
pub proof fn summary_is_determined(values: Seq<u64>, a: Summary, b: Summary)
    requires
        a.describes(values),
        b.describes(values),
    ensures
        a.min == b.min,
        a.average@ == b.average@,
        a.median == b.median,
        a.p90 == b.p90,
        a.p95 == b.p95,
        a.p99 == b.p99,
        a.p999 == b.p999,
        a.max == b.max,
{
}

/// A percentile is at a place among the samples, and a higher percentile is not
/// before a lower one.
pub proof fn nearest_rank_is_monotone(len: nat, low: nat, high: nat)
    requires
        len > 0,
        low <= high,
    ensures
        nearest_rank(len, low) <= nearest_rank(len, high) < len,
{
    assert(low * len <= high * len) by (nonlinear_arith)
        requires
            low <= high,
    ;
}

/// The figures of a summary are observed samples, from the smallest to the
/// largest.
pub proof fn summary_figures_are_ordered_samples(values: Seq<u64>, s: Summary)
    requires
        values.len() > 0,
        s.describes(values),
    ensures
        s.min <= s.median <= s.p90 <= s.p95 <= s.p99 <= s.p999 <= s.max,
        values.contains(s.min),
        values.contains(s.median),
        values.contains(s.p90),
        values.contains(s.p95),
        values.contains(s.p99),
        values.contains(s.p999),
        values.contains(s.max),
        forall|i: int| 0 <= i < values.len() ==> s.min <= #[trigger] values[i] <= s.max,
{
    lemma_ascending(values);
    let sorted = ascending(values);
    let len = values.len();
    nearest_rank_is_monotone(len, 500, 900);
    nearest_rank_is_monotone(len, 900, 950);
    nearest_rank_is_monotone(len, 950, 990);
    nearest_rank_is_monotone(len, 990, 999);
    values.to_multiset_ensures();
    sorted.to_multiset_ensures();
    assert forall|i: int| 0 <= i < len implies values.contains(#[trigger] sorted[i]) by {
        assert(sorted.to_multiset().count(sorted[i]) > 0);
    }
    assert forall|i: int| 0 <= i < len implies s.min <= #[trigger] values[i] <= s.max by {
        assert(values.to_multiset().count(values[i]) > 0);
        assert(sorted.contains(values[i]));
    }
    assert(sorted[0] == s.min && sorted[len - 1] == s.max);
}

/// Whether `figure` splits `samples` at `per_mille` thousandths: at least that share of
/// them is no longer than `figure` nanoseconds, and less than that share is shorter. A
/// figure of 64 one bits stands for all that is longer, too.
pub open spec fn splits(samples: Seq<Duration>, figure: u64, per_mille: nat) -> bool {
    &&& samples.filter(|d: Duration| d@ <= figure || figure == u64::MAX).len() * 1000 >= per_mille
        * samples.len()
    &&& samples.filter(|d: Duration| d@ < figure).len() * 1000 < per_mille * samples.len()
}

proof fn lemma_percentile_splits(samples: Seq<Duration>, per_mille: nat)
    requires
        samples.len() > 0,
        0 < per_mille <= 1000,
    ensures
        splits(samples, percentile_of(sample_nanos(samples), per_mille), per_mille),
{
    let values = sample_nanos(samples);
    let sorted = ascending(values);
    let figure = percentile_of(values, per_mille);
    let k = nearest_rank(values.len(), per_mille) as int;
    lemma_ascending(values);
    nearest_rank_is_monotone(values.len(), per_mille, per_mille);
    nearest_rank_covers(values.len(), per_mille);
    let clamp = |d: Duration| clamp_u64(d@);
    let upto = |v: u64| v <= figure;
    let below = |v: u64| v < figure;
    assert forall|i: int| 0 <= i < k + 1 implies upto(#[trigger] sorted[i]) by {}
    assert forall|i: int| k <= i < sorted.len() implies !below(#[trigger] sorted[i]) by {}
    lemma_count_first(sorted, upto, k + 1);
    lemma_count_first(sorted, below, k);
    lemma_count_ignores_order(sorted, values, upto);
    lemma_count_ignores_order(sorted, values, below);
    let upto_span = |d: Duration| d@ <= figure || figure == u64::MAX;
    let below_span = |d: Duration| d@ < figure;
    lemma_count_mapped(samples, clamp, upto, upto_span);
    lemma_count_mapped(samples, clamp, below, below_span);
    assert(per_mille * samples.len() > 0) by (nonlinear_arith)
        requires
            per_mille > 0,
            samples.len() > 0,
    ;
}

/// Each percentile of a summary splits the samples at its own share, counted over the
/// samples themselves.
pub proof fn percentiles_split_the_samples(samples: Seq<Duration>, s: Summary)
    requires
        samples.len() > 0,
        summarises(Some(s), samples),
    ensures
        splits(samples, s.median, 500),
        splits(samples, s.p90, 900),
        splits(samples, s.p95, 950),
        splits(samples, s.p99, 990),
        splits(samples, s.p999, 999),
{
    lemma_percentile_splits(samples, 500);
    lemma_percentile_splits(samples, 900);
    lemma_percentile_splits(samples, 950);
    lemma_percentile_splits(samples, 990);
    lemma_percentile_splits(samples, 999);
}

/// Whether one of `samples` is `figure` nanoseconds long. A figure of 64 one bits stands
/// for all that is longer, too.
pub open spec fn observed(samples: Seq<Duration>, figure: u64) -> bool {
    exists|i: int|
        0 <= i < samples.len() && ((#[trigger] samples[i])@ == figure || (figure == u64::MAX
            && samples[i]@ >= figure))
}

/// Every figure of a summary but the mean is the length of one of the samples; the
/// minimum is no longer and the maximum no shorter than any of them.
pub proof fn figures_are_lengths_of_samples(samples: Seq<Duration>, s: Summary)
    requires
        samples.len() > 0,
        summarises(Some(s), samples),
    ensures
        observed(samples, s.min),
        observed(samples, s.median),
        observed(samples, s.p90),
        observed(samples, s.p95),
        observed(samples, s.p99),
        observed(samples, s.p999),
        observed(samples, s.max),
        forall|i: int|
            0 <= i < samples.len() ==> {
                &&& s.min <= (#[trigger] samples[i])@
                &&& samples[i]@ <= s.max || s.max == u64::MAX
            },
{
    let values = sample_nanos(samples);
    summary_figures_are_ordered_samples(values, s);
    assert forall|figure: u64| values.contains(figure) implies observed(samples, figure) by {
        let i = choose|i: int| 0 <= i < values.len() && values[i] == figure;
        assert(values[i] == clamp_u64(samples[i]@));
        assert(samples[i]@ == figure || (figure == u64::MAX && samples[i]@ >= figure));
    }
    assert forall|i: int| 0 <= i < samples.len() implies {
        &&& s.min <= (#[trigger] samples[i])@
        &&& samples[i]@ <= s.max || s.max == u64::MAX
    } by {
        assert(values[i] == clamp_u64(samples[i]@));
    }
}

/// There is a summary of any samples at all, and none of no samples.
pub proof fn only_no_samples_have_no_summary(samples: Seq<Duration>, summary: Option<Summary>)
    requires
        summarises(summary, samples),
    ensures
        summary is None <==> samples.len() == 0,
{
}

/// The total is the sum of the lengths of the samples.
pub proof fn total_is_the_sum_of_lengths(samples: Seq<Duration>)
    requires
        forall|i: int| 0 <= i < samples.len() ==> (#[trigger] samples[i])@ <= u64::MAX,
    ensures
        total(sample_nanos(samples)) == samples.fold_left(0nat, |sum: nat, d: Duration| sum + d@),
    decreases samples.len(),
{
    if samples.len() > 0 {
        let t = samples.drop_last();
        assert(forall|i: int| 0 <= i < t.len() ==> t[i] == samples[i]);
        total_is_the_sum_of_lengths(t);
        assert(sample_nanos(samples).drop_last() =~= sample_nanos(t));
        assert(samples[samples.len() - 1]@ <= u64::MAX);
    }
}

/// The average of a summary is the sum of the lengths of the samples over their number,
/// as near as rounded arithmetic has it.
pub proof fn the_average_is_the_mean(samples: Seq<Duration>, s: Summary)
    requires
        samples.len() > 0,
        summarises(Some(s), samples),
        forall|i: int| 0 <= i < samples.len() ==> (#[trigger] samples[i])@ <= u64::MAX,
    ensures
        ({
            let sum = samples.fold_left(0nat, |sum: nat, d: Duration| sum + d@);
            near(amount(s.average@), (sum as real) / (samples.len() as real), 5)
        }),
{
    total_is_the_sum_of_lengths(samples);
    whole_quotients_are_near(total(sample_nanos(samples)), samples.len());
}

/// The number of thousandths of a unit that [`fixed`] shows of `ns / unit`.
proof fn lemma_unit_text(ns: Binary, unit: nat) -> (units: nat)
    requires
        unit == 1_000 || unit == 1_000_000 || unit == 1_000_000_000,
    ensures
        fixed(quotient(ns, whole(unit)), 3) == decimal(units / 1000) + seq!['.'] + padded_decimal(
            units % 1000,
            3,
        ),
        shows(units, (unit / 1000) as nat, amount(ns)),
{
    let q = quotient(ns, whole(unit));
    whole_numbers_are_kept(unit);
    quotients_are_near(ns, whole(unit));
    lemma_divides(amount(ns), unit as real);
    let units = fixed_point_text_is_the_nearest(q, 3);
    let d = amount(ns) / (unit as real);
    let a = amount(q);
    assert(d * (unit as real) == amount(ns));
    assert(near(a, d, 1));
    if unit == 1_000 {
        assert(d * (1_000 as real) == amount(ns));
    } else if unit == 1_000_000 {
        assert(d * (1_000_000 as real) == amount(ns));
    } else {
        assert(d * (1_000_000_000 as real) == amount(ns));
    }
    units
}

/// Whether `units`, each of them `size`, is `exact` to half a unit, give or take the
/// rounding of one quotient.
pub open spec fn shows(units: nat, size: nat, exact: real) -> bool {
    let off = (units as real) * (size as real) - exact;
    let half = (size as real) / (2 as real);
    &&& (9_007_199_254_740_992 as real) * (off - half) <= exact
    &&& (9_007_199_254_740_992 as real) * (-off - half) <= exact
}

/// Milliseconds are shown to the nearest microsecond.
pub proof fn milliseconds_are_shown_to_the_microsecond(ns: Binary)
    ensures
        exists|units: nat|
            shows(units, 1_000, amount(ns)) && ms_text(ns) == #[trigger] decimal(units / 1000)
                + seq!['.'] + padded_decimal(units % 1000, 3) + " ms"@,
{
    let units = lemma_unit_text(ns, 1_000_000);
    assert(decimal(units / 1000) + seq!['.'] + padded_decimal(units % 1000, 3) + " ms"@ == ms_text(
        ns,
    ));
}

/// Nanoseconds are shown in the largest unit of which they are at least one, to the
/// nearest thousandth of it, and below a microsecond as they are.
pub proof fn nanoseconds_are_shown_in_the_largest_unit(ns: Binary)
    ensures
        ({
            let exact = amount(ns);
            if exact >= 1_000_000_000 as real {
                exists|units: nat|
                    shows(units, 1_000_000, exact) && ns_text(ns) == #[trigger] decimal(units / 1000)
                        + seq!['.'] + padded_decimal(units % 1000, 3) + " s"@
            } else if exact >= 1_000_000 as real {
                exists|units: nat|
                    shows(units, 1_000, exact) && ns_text(ns) == #[trigger] decimal(units / 1000)
                        + seq!['.'] + padded_decimal(units % 1000, 3) + " ms"@
            } else if exact >= 1_000 as real {
                exists|units: nat|
                    shows(units, 1, exact) && ns_text(ns) == #[trigger] decimal(units / 1000)
                        + seq!['.'] + padded_decimal(units % 1000, 3) + " us"@
            } else {
                exists|units: nat|
                    shows(units, 1, exact) && ns_text(ns) == #[trigger] decimal(units) + " ns"@
            }
        }),
{
    let exact = amount(ns);
    at_least_compares_amounts(ns, 1_000_000_000);
    at_least_compares_amounts(ns, 1_000_000);
    at_least_compares_amounts(ns, 1_000);
    lemma_amount_of_zero(ns);
    let s = lemma_unit_text(ns, 1_000_000_000);
    let ms = lemma_unit_text(ns, 1_000_000);
    let us = lemma_unit_text(ns, 1_000);
    let raw = fixed_point_text_is_the_nearest(ns, 0);
    if exact >= 1_000_000_000 as real {
        assert(ns_text(ns) == decimal(s / 1000) + seq!['.'] + padded_decimal(s % 1000, 3) + " s"@);
    } else if exact >= 1_000_000 as real {
        assert(ns_text(ns) == decimal(ms / 1000) + seq!['.'] + padded_decimal(ms % 1000, 3)
            + " ms"@);
    } else if exact >= 1_000 as real {
        assert(ns_text(ns) == decimal(us / 1000) + seq!['.'] + padded_decimal(us % 1000, 3)
            + " us"@);
    } else {
        assert(shows(raw, 1, exact));
        assert(ns_text(ns) == decimal(raw) + " ns"@);
    }
}

/// The nearest-rank percentile is the first of the sorted samples that has
/// `per_mille / 1000` of all samples at or before it.
pub proof fn nearest_rank_covers(len: nat, per_mille: nat)
    requires
        len > 0,
        per_mille <= 1000,
    ensures
        (nearest_rank(len, per_mille) + 1) * 1000 >= per_mille * len,
        nearest_rank(len, per_mille) > 0 ==> nearest_rank(len, per_mille) * 1000 < per_mille * len,
{
    assert(per_mille * len <= 1000 * len) by (nonlinear_arith)
        requires
            per_mille <= 1000,
    ;
}

} // verus!
