//! The report at the end of a run.

use vstd::arithmetic::power2::lemma2_to64;
use vstd::prelude::*;

use crate::accuracy::{
    amount, near, products_are_near, quotients_are_near, whole_numbers_are_kept,
};
use crate::cli::Args;
use crate::double::{
    fixed, lemma_exponent_from_magnitude, product, quotient, whole, Binary, Double,
};
use crate::histogram::{histogram, histogram_text};
use crate::nearness::{
    fixed_point_text_is_the_nearest, lemma_near_product, lemma_near_quotient, lemma_near_through,
};
use crate::stats::{
    format_duration, ns_text, sample_nanos, summary_report, summary_text,
};
use crate::text::{
    decimal, ends_with, holds_part, lemma_labelled, lemma_part_between, lemma_part_stays,
    lemma_parts_stay, padded_decimal, push_decimal,
};
use crate::workload::RunResult;

verus! {

/// How many buckets the histogram has.
pub const BUCKETS: usize = 20;

/// What a run was set up with.
pub open spec fn configuration_text(args: Args, result: RunResult) -> Seq<char> {
    "\nConfiguration\n  CPU:                 "@ + cpu_text(result.cpu)
        + "\n  CPU worker util:     "@ + decimal(args.cpu_util as nat)
        + "%\n  frames:              "@ + decimal(result.frame_latencies@.len())
        + "\n  frame period:        "@ + ns_text(whole(result.frame_period@))
        + "\n  mutex-owner read:    "@ + decimal(args.lock_bytes as nat) + " bytes\n"@
}

/// The CPU that the workload was pinned to.
pub open spec fn cpu_text(cpu: Option<usize>) -> Seq<char> {
    match cpu {
        Some(cpu) => decimal(cpu as nat),
        None => "not pinned"@,
    }
}

/// `misses` of `frames` frames, in percent.
pub open spec fn miss_percent(misses: nat, frames: nat) -> Binary {
    quotient(
        product(whole(misses), whole(100)),
        whole(
            if frames == 0 {
                1
            } else {
                frames
            },
        ),
    )
}

/// How many frames missed their deadline.
pub open spec fn misses_text(misses: nat, frames: nat) -> Seq<char> {
    "\nMissed frame deadlines: "@ + decimal(misses) + " / "@ + decimal(frames) + " ("@ + fixed(
        miss_percent(misses, frames),
        2,
    ) + "%)\n"@
}

/// The report at the end of a run.
pub open spec fn report_text(args: Args, result: RunResult) -> Seq<char> {
    configuration_text(args, result) + summary_text(
        "Frame latency (scheduled release to completion)"@,
        sample_nanos(result.frame_latencies@),
    ) + summary_text(
        "Kernel mutex gate (shared file-position access)"@,
        sample_nanos(result.gate_waits@),
    ) + misses_text(result.deadline_misses as nat, result.frame_latencies@.len()) + histogram_text(
        "Frame latency histogram"@,
        sample_nanos(result.frame_latencies@),
        BUCKETS as nat,
    )
}

/// The configuration names the CPU, the utilization, the number of measured frames,
/// their period and the size of a read, each behind its own label.
pub proof fn configuration_labels_its_settings(args: Args, result: RunResult)
    ensures
        ({
            let text = configuration_text(args, result);
            &&& result.cpu matches Some(cpu) ==> holds_part(
                text,
                "\nConfiguration\n  CPU:                 "@ + decimal(cpu as nat)
                    + "\n  CPU worker util:     "@,
            )
            &&& result.cpu is None ==> holds_part(
                text,
                "\nConfiguration\n  CPU:                 "@ + "not pinned"@
                    + "\n  CPU worker util:     "@,
            )
            &&& holds_part(
                text,
                "\n  CPU worker util:     "@ + decimal(args.cpu_util as nat)
                    + "%\n  frames:              "@,
            )
            &&& holds_part(
                text,
                "%\n  frames:              "@ + decimal(result.frame_latencies@.len())
                    + "\n  frame period:        "@,
            )
            &&& holds_part(
                text,
                "\n  frame period:        "@ + ns_text(whole(result.frame_period@))
                    + "\n  mutex-owner read:    "@,
            )
            &&& holds_part(
                text,
                "\n  mutex-owner read:    "@ + decimal(args.lock_bytes as nat) + " bytes\n"@,
            )
        }),
{
    let none = Seq::<char>::empty();
    let l0 = "\nConfiguration\n  CPU:                 "@;
    let l1 = "\n  CPU worker util:     "@;
    let l2 = "%\n  frames:              "@;
    let l3 = "\n  frame period:        "@;
    let l4 = "\n  mutex-owner read:    "@;
    let l5 = " bytes\n"@;
    let v0 = cpu_text(result.cpu);
    let v1 = decimal(args.cpu_util as nat);
    let v2 = decimal(result.frame_latencies@.len());
    let v3 = ns_text(whole(result.frame_period@));
    let v4 = decimal(args.lock_bytes as nat);
    let t1 = l0 + v0 + l1;
    let t2 = t1 + v1 + l2;
    let t3 = t2 + v2 + l3;
    let t4 = t3 + v3 + l4;
    let t5 = t4 + v4 + l5;
    assert(t5 == configuration_text(args, result));
    lemma_labelled(none, l0, v0, l1);
    assert(none + l0 =~= l0);
    lemma_labelled(l0 + v0, l1, v1, l2);
    lemma_labelled(t1 + v1, l2, v2, l3);
    lemma_labelled(t2 + v2, l3, v3, l4);
    lemma_labelled(t3 + v3, l4, v4, l5);
    lemma_parts_stay(t1, l0 + v0 + l1, v1, l2);
    lemma_parts_stay(t2, l0 + v0 + l1, v2, l3);
    lemma_parts_stay(t3, l0 + v0 + l1, v3, l4);
    lemma_parts_stay(t4, l0 + v0 + l1, v4, l5);
    lemma_parts_stay(t2, l1 + v1 + l2, v2, l3);
    lemma_parts_stay(t3, l1 + v1 + l2, v3, l4);
    lemma_parts_stay(t4, l1 + v1 + l2, v4, l5);
    lemma_parts_stay(t3, l2 + v2 + l3, v3, l4);
    lemma_parts_stay(t4, l2 + v2 + l3, v4, l5);
    lemma_parts_stay(t4, l3 + v3 + l4, v4, l5);
}

/// The line on deadlines names the misses and the frames, each in its place.
pub proof fn deadline_line_names_misses_and_frames(misses: nat, frames: nat)
    ensures
        holds_part(
            misses_text(misses, frames),
            "\nMissed frame deadlines: "@ + decimal(misses) + " / "@,
        ),
        holds_part(misses_text(misses, frames), " / "@ + decimal(frames) + " ("@),
{
    let none = Seq::<char>::empty();
    let l0 = "\nMissed frame deadlines: "@;
    let l1 = " / "@;
    let l2 = " ("@;
    let v0 = decimal(misses);
    let v1 = decimal(frames);
    let v2 = fixed(miss_percent(misses, frames), 2);
    let t1 = l0 + v0 + l1;
    let t2 = t1 + v1 + l2;
    lemma_labelled(none, l0, v0, l1);
    assert(none + l0 =~= l0);
    lemma_labelled(l0 + v0, l1, v1, l2);
    lemma_parts_stay(t1, l0 + v0 + l1, v1, l2);
    lemma_parts_stay(t2, l0 + v0 + l1, v2, "%)\n"@);
    lemma_parts_stay(t2, l1 + v1 + l2, v2, "%)\n"@);
}

/// The share of missed deadlines is the misses over the frames in percent, as near as
/// rounded arithmetic has it, and is shown to the nearest hundredth.
pub proof fn the_share_of_misses_is_misses_over_frames(misses: nat, frames: nat)
    requires
        frames > 0,
    ensures
        near(
            amount(miss_percent(misses, frames)),
            (misses as real) * (100 as real) / (frames as real),
            8,
        ),
        exists|units: nat|
            {
                let exact = amount(miss_percent(misses, frames)) * (100 as real);
                &&& (2 as real) * (units as real - exact) <= 1 as real
                &&& (2 as real) * (exact - units as real) <= 1 as real
                &&& ends_with(
                    misses_text(misses, frames),
                    " ("@ + (#[trigger] decimal(units / 100) + seq!['.'] + padded_decimal(
                        units % 100,
                        2,
                    )) + "%)\n"@,
                )
            },
{
    let m = whole(misses);
    let h = whole(100);
    let f = whole(frames);
    whole_numbers_are_kept(misses);
    whole_numbers_are_kept(100);
    whole_numbers_are_kept(frames);
    let p = product(m, h);
    products_are_near(m, h);
    lemma_near_product(amount(m), misses as real, 1, amount(h), 100 as real, 0);
    let exact = (misses as real) * (100 as real);
    lemma_near_through(amount(p), amount(m) * amount(h), exact, 2);
    quotients_are_near(p, f);
    lemma_near_quotient(amount(p), exact, 4, amount(f), frames as real, 1);
    lemma_near_through(
        amount(quotient(p, f)),
        amount(p) / amount(f),
        exact / (frames as real),
        6,
    );
    let b = miss_percent(misses, frames);
    let units = fixed_point_text_is_the_nearest(b, 2);
    let shown = decimal(units / 100) + seq!['.'] + padded_decimal(units % 100, 2);
    let text = misses_text(misses, frames);
    let before = "\nMissed frame deadlines: "@ + decimal(misses) + " / "@ + decimal(frames);
    assert(text == before + " ("@ + shown + "%)\n"@);
    lemma_ends(before, " ("@, shown, "%)\n"@);
}

/// Three texts at the end are the end.
proof fn lemma_ends(before: Seq<char>, a: Seq<char>, b: Seq<char>, c: Seq<char>)
    ensures
        ends_with(before + a + b + c, a + b + c),
{
    let text = before + a + b + c;
    let end = a + b + c;
    assert(text.skip(text.len() - end.len()) =~= end);
}

/// The report holds the configuration of the run, a summary of its frame latencies, a
/// summary of its waits and the count of its misses, each under its own heading.
pub proof fn report_holds_its_parts(args: Args, result: RunResult)
    ensures
        ({
            let text = report_text(args, result);
            &&& holds_part(text, configuration_text(args, result))
            &&& holds_part(
                text,
                summary_text(
                    "Frame latency (scheduled release to completion)"@,
                    sample_nanos(result.frame_latencies@),
                ),
            )
            &&& holds_part(
                text,
                summary_text(
                    "Kernel mutex gate (shared file-position access)"@,
                    sample_nanos(result.gate_waits@),
                ),
            )
            &&& holds_part(
                text,
                misses_text(result.deadline_misses as nat, result.frame_latencies@.len()),
            )
        }),
{
    let c = configuration_text(args, result);
    let latencies = summary_text(
        "Frame latency (scheduled release to completion)"@,
        sample_nanos(result.frame_latencies@),
    );
    let waits = summary_text(
        "Kernel mutex gate (shared file-position access)"@,
        sample_nanos(result.gate_waits@),
    );
    let misses = misses_text(result.deadline_misses as nat, result.frame_latencies@.len());
    let h = histogram_text(
        "Frame latency histogram"@,
        sample_nanos(result.frame_latencies@),
        20,
    );
    lemma_five_parts(c, latencies, waits, misses, h);
}

/// Texts that are put one behind the other all stand there.
proof fn lemma_five_parts(
    a: Seq<char>,
    b: Seq<char>,
    c: Seq<char>,
    d: Seq<char>,
    e: Seq<char>,
)
    ensures
        holds_part(a + b + c + d + e, a),
        holds_part(a + b + c + d + e, b),
        holds_part(a + b + c + d + e, c),
        holds_part(a + b + c + d + e, d),
{
    let none = Seq::<char>::empty();
    lemma_part_between(none, a, b);
    assert(none + a =~= a);
    lemma_parts_stay(a + b, a, c, d);
    lemma_part_stays(a + b + c + d, a, e);
    lemma_part_between(a, b, c);
    lemma_parts_stay(a + b + c, b, d, e);
    lemma_part_between(a + b, c, d);
    lemma_part_stays(a + b + c + d, c, e);
    lemma_part_between(a + b + c, d, e);
}

/// The report ends with the histogram of the frame latencies, in twenty buckets.
pub proof fn report_ends_with_the_latency_histogram(args: Args, result: RunResult)
    ensures
        ends_with(
            report_text(args, result),
            histogram_text(
                "Frame latency histogram"@,
                sample_nanos(result.frame_latencies@),
                20,
            ),
        ),
{
    let h = histogram_text(
        "Frame latency histogram"@,
        sample_nanos(result.frame_latencies@),
        20,
    );
    let text = report_text(args, result);
    assert(text.skip(text.len() - h.len()) =~= h);
}

/// Reports of runs with the same frame latencies end with the same histogram, whatever
/// the runs waited for and however they were set up.
pub proof fn histogram_ignores_waits_and_settings(
    args: Args,
    result: RunResult,
    other_args: Args,
    other: RunResult,
)
    requires
        result.frame_latencies@ == other.frame_latencies@,
    ensures
        exists|h: Seq<char>|
            {
                &&& result.frame_latencies@.len() > 0 ==> h.len() > 0
                &&& ends_with(report_text(args, result), h)
                &&& #[trigger] ends_with(report_text(other_args, other), h)
            },
{
    report_ends_with_the_latency_histogram(args, result);
    report_ends_with_the_latency_histogram(other_args, other);
    let h = histogram_text(
        "Frame latency histogram"@,
        sample_nanos(result.frame_latencies@),
        20,
    );
    reveal_strlit("\n");
    assert(ends_with(report_text(other_args, other), h));
}

/// What a run was set up with.
fn configuration(args: &Args, result: &RunResult) -> (text: String)
    ensures
        text@ == configuration_text(*args, *result),
{
    let mut text = "\nConfiguration\n  CPU:                 ".to_owned();
    match result.cpu {
        Some(cpu) => {
            let mut number = String::new();
            push_decimal(&mut number, cpu as u128);
            assert(number@ =~= decimal(cpu as nat));
            text.append(number.as_str());
        },
        None => {
            text.append("not pinned");
        },
    }
    text.append("\n  CPU worker util:     ");
    push_decimal(&mut text, args.cpu_util as u128);
    text.append("%\n  frames:              ");
    push_decimal(&mut text, result.frame_latencies.len() as u128);
    text.append("\n  frame period:        ");
    text.append(format_duration(result.frame_period).as_str());
    text.append("\n  mutex-owner read:    ");
    push_decimal(&mut text, args.lock_bytes as u128);
    text.append(" bytes\n");
    text
}

/// How many frames missed their deadline.
pub fn deadline_line(misses: usize, frames: usize) -> (text: String)
    ensures
        text@ == misses_text(misses as nat, frames as nat),
{
    let hundred = Double::from_u128(100);
    let all = Double::from_u128(
        if frames == 0 {
            1
        } else {
            frames as u128
        },
    );
    proof {
        lemma2_to64();
        lemma_exponent_from_magnitude(100, 6, 7, hundred@.exponent);
    }
    let percent = Double::from_u128(misses as u128).mul(&hundred).div(&all);
    let mut text = "\nMissed frame deadlines: ".to_owned();
    push_decimal(&mut text, misses as u128);
    text.append(" / ");
    push_decimal(&mut text, frames as u128);
    text.append(" (");
    text.append(percent.to_fixed(2).as_str());
    text.append("%)\n");
    text
}

/// The report at the end of a run.
pub fn final_report(args: &Args, result: &RunResult) -> (text: String)
    ensures
        text@ == report_text(*args, *result),
        ends_with(
            text@,
            histogram_text(
                "Frame latency histogram"@,
                sample_nanos(result.frame_latencies@),
                20,
            ),
        ),
{
    let latencies = summary_report(
        "Frame latency (scheduled release to completion)",
        result.frame_latencies.as_slice(),
    );
    let waits = summary_report(
        "Kernel mutex gate (shared file-position access)",
        result.gate_waits.as_slice(),
    );
    let mut text = configuration(args, result);
    text.append(latencies.as_str());
    text.append(waits.as_str());
    text.append(
        deadline_line(result.deadline_misses, result.frame_latencies.len()).as_str(),
    );
    text.append(
        histogram(
            "Frame latency histogram",
            result.frame_latencies.as_slice(),
            BUCKETS,
        ).as_str(),
    );
    proof {
        report_ends_with_the_latency_histogram(*args, *result);
    }
    text
}

} // verus!
