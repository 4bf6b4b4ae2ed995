//! Saving the measurements of a run as CSV, and loading the latencies of one
//! that was saved.

use vstd::prelude::*;

use crate::duration::{duration_is_its_nanos, Duration};
use crate::frames::{late_frames, nanos};
use crate::number::{
    is_digit, lemma_decimal_is_digits, number_reads_back_decimal, number_value, read_number,
    NumberError,
};
use crate::text::{decimal, push_decimal};
use crate::workload::RunResult;

verus! {

/// The first place at or after `from` where `text` holds `c`, or its length.
pub open spec fn place_of(text: Seq<char>, c: char, from: int) -> int
    decreases text.len() - from,
{
    if from >= text.len() {
        text.len() as int
    } else if text[from] == c {
        from
    } else {
        place_of(text, c, from + 1)
    }
}

/// The line of `text` from `from` to `end`, without the carriage return of a line
/// that ends in one and a line feed.
pub open spec fn line_at(text: Seq<char>, from: int, end: int) -> Seq<char> {
    if from < end < text.len() && text[end - 1] == '\r' {
        text.subrange(from, end - 1)
    } else {
        text.subrange(from, end)
    }
}

/// The lines of `text` from `from` on. A line ends with a line feed or with the
/// text.
pub open spec fn lines_from(text: Seq<char>, from: int) -> Seq<Seq<char>>
    decreases text.len() + 1 - from,
{
    if 0 <= from < text.len() {
        let end = place_of(text, '\n', from);
        proof {
            lemma_place_of(text, '\n', from);
        }
        seq![line_at(text, from, end)] + lines_from(text, end + 1)
    } else {
        Seq::empty()
    }
}

/// The lines of `text`.
pub open spec fn lines(text: Seq<char>) -> Seq<Seq<char>> {
    lines_from(text, 0)
}

/// The field of `line` between its first comma and the next one or its end.
pub open spec fn second_field(line: Seq<char>) -> Option<Seq<char>> {
    let comma = place_of(line, ',', 0);
    if comma == line.len() {
        None
    } else {
        Some(line.subrange(comma + 1, place_of(line, ',', comma + 1)))
    }
}

/// What a row of a saved run says of its frame.
pub enum Row {
    /// The latency in nanoseconds.
    Latency(u64),
    /// There is no second field.
    Short,
    /// The second field is no number.
    Unreadable(NumberError),
}

/// What `line` says as a row of a saved run.
pub open spec fn row_of(line: Seq<char>) -> Row {
    match second_field(line) {
        None => Row::Short,
        Some(field) => match number_value(field) {
            Ok(ns) => Row::Latency(ns),
            Err(e) => Row::Unreadable(e),
        },
    }
}

/// The rows of a saved run: every line but the first, which names the columns.
pub open spec fn rows_in(text: Seq<char>) -> Seq<Seq<char>> {
    if lines(text).len() == 0 {
        Seq::empty()
    } else {
        lines(text).skip(1)
    }
}

/// Whether `latencies` are what the rows of `text` say, row by row.
pub open spec fn loads_as(text: Seq<char>, latencies: Seq<Duration>) -> bool {
    &&& latencies.len() == rows_in(text).len()
    &&& forall|i: int|
        0 <= i < latencies.len() ==> {
            &&& (#[trigger] latencies[i])@ <= u64::MAX
            &&& row_of(rows_in(text)[i]) == Row::Latency(latencies[i]@ as u64)
        }
}

/// Why a saved run could not be loaded.
#[derive(Clone, Debug)]
pub enum ComparisonError {
    /// This row has no second field.
    InvalidRow(String),
    /// The latency of a row is no number.
    Number(NumberError),
}

impl ComparisonError {
    /// What to tell the user.
    pub open spec fn text(self) -> Seq<char> {
        match self {
            ComparisonError::InvalidRow(row) => "invalid comparison row: "@ + row@,
            ComparisonError::Number(e) => e.text(),
        }
    }

    /// What to tell the user.
    pub fn to_string(&self) -> (text: String)
        ensures
            text@ == self.text(),
    {
        match self {
            ComparisonError::InvalidRow(row) => {
                let mut s = "invalid comparison row: ".to_owned();
                s.append(row.as_str());
                s
            },
            ComparisonError::Number(e) => e.to_string(),
        }
    }

    /// Whether this is what is wrong with `line`.
    pub open spec fn describes(self, line: Seq<char>) -> bool {
        match self {
            ComparisonError::InvalidRow(row) => row_of(line) is Short && row@ == line,
            ComparisonError::Number(e) => row_of(line) == Row::Unreadable(e),
        }
    }
}

/// Facts that follow from what [`place_of`] finds.
pub proof fn lemma_place_of(text: Seq<char>, c: char, from: int)
    requires
        0 <= from <= text.len(),
    ensures
        from <= place_of(text, c, from) <= text.len(),
        place_of(text, c, from) < text.len() ==> text[place_of(text, c, from)] == c,
        forall|i: int| from <= i < place_of(text, c, from) ==> text[i] != c,
    decreases text.len() - from,
{
    if from < text.len() && text[from] != c {
        lemma_place_of(text, c, from + 1);
    }
}

/// The place found is the only one with these properties.
proof fn lemma_place_is(text: Seq<char>, c: char, from: int, place: int)
    requires
        0 <= from <= place <= text.len(),
        place < text.len() ==> text[place] == c,
        forall|i: int| from <= i < place ==> text[i] != c,
    ensures
        place_of(text, c, from) == place,
{
    lemma_place_of(text, c, from);
    let found = place_of(text, c, from);
    if found < place {
        assert(text[found] != c);
    }
    if place < found {
        assert(text[place] != c);
    }
}

/// The characters of `s`.
fn characters(s: &str) -> (chars: Vec<char>)
    ensures
        chars@ == s@,
{
    let mut chars: Vec<char> = Vec::new();
    for c in it: s.chars()
        invariant
            chars@ == it.seq().take(it.index()),
            it.seq() == s@,
    {
        chars.push(c);
        assert(chars@ =~= it.seq().take(it.index() + 1));
    }
    assert(chars@ =~= s@);
    chars
}

/// The first place at or after `from` where `text` holds `c`, or its length.
fn find(text: &Vec<char>, c: char, from: usize) -> (place: usize)
    requires
        from <= text@.len(),
    ensures
        place == place_of(text@, c, from as int),
        from <= place <= text@.len(),
{
    let mut i: usize = from;
    while i < text.len() && text[i] != c
        invariant
            from <= i <= text@.len(),
            forall|j: int| from <= j < i ==> text@[j] != c,
        decreases text@.len() - i,
    {
        i = i + 1;
    }
    proof {
        lemma_place_is(text@, c, from as int, i as int);
    }
    i
}

/// The characters of `text` from `from` to `to`.
fn slice(text: &Vec<char>, from: usize, to: usize) -> (part: Vec<char>)
    requires
        from <= to <= text@.len(),
    ensures
        part@ == text@.subrange(from as int, to as int),
{
    let mut part: Vec<char> = Vec::new();
    let mut i: usize = from;
    while i < to
        invariant
            from <= i <= to <= text@.len(),
            part@ == text@.subrange(from as int, i as int),
        decreases to - i,
    {
        part.push(text[i]);
        i = i + 1;
        assert(part@ =~= text@.subrange(from as int, i as int));
    }
    part
}

/// What `line` says as a row of a saved run: nothing where it is too short.
fn read_row(line: &Vec<char>) -> (latency: Option<Result<u64, NumberError>>)
    ensures
        match row_of(line@) {
            Row::Latency(ns) => latency == Some(Ok::<u64, NumberError>(ns)),
            Row::Short => latency is None,
            Row::Unreadable(e) => latency == Some(Err::<u64, NumberError>(e)),
        },
{
    let comma: usize = find(line, ',', 0);
    if comma == line.len() {
        return None;
    }
    let end: usize = find(line, ',', comma + 1);
    Some(read_number(line, comma + 1, end))
}

/// Loads the latencies of a run from the text that it was saved as.
pub fn load_comparison(text: &str) -> (loaded: Result<Vec<Duration>, ComparisonError>)
    ensures
        loaded is Ok <==> forall|i: int|
            0 <= i < rows_in(text@).len() ==> row_of(#[trigger] rows_in(text@)[i]) is Latency,
        loaded matches Ok(latencies) ==> loads_as(text@, latencies@),
        loaded matches Err(e) ==> exists|k: int|
            {
                &&& 0 <= k < rows_in(text@).len()
                &&& forall|i: int| 0 <= i < k ==> row_of(#[trigger] rows_in(text@)[i]) is Latency
                &&& e.describes(#[trigger] rows_in(text@)[k])
            },
{
    let chars: Vec<char> = characters(text);
    let mut latencies: Vec<Duration> = Vec::new();
    if chars.len() == 0 {
        return Ok(latencies);
    }
    let heading_end: usize = find(&chars, '\n', 0);
    let ghost rows = rows_in(text@);
    proof {
        assert(lines(text@).skip(1) =~= lines_from(text@, heading_end + 1));
    }
    if heading_end == chars.len() {
        return Ok(latencies);
    }
    let mut start: usize = heading_end + 1;
    proof {
        assert(lines_from(text@, start as int) =~= rows.skip(0));
    }
    while start < chars.len()
        invariant
            start <= chars@.len(),
            chars@ == text@,
            rows == rows_in(text@),
            latencies@.len() <= rows.len(),
            lines_from(text@, start as int) == rows.skip(latencies@.len() as int),
            forall|i: int|
                0 <= i < latencies@.len() ==> row_of(rows[i]) == Row::Latency(
                    (#[trigger] latencies@[i])@ as u64,
                ) && latencies@[i]@ <= u64::MAX,
            forall|i: int| 0 <= i < latencies@.len() ==> row_of(#[trigger] rows[i]) is Latency,
        decreases chars@.len() - start,
    {
        let end: usize = find(&chars, '\n', start);
        let stop: usize = if start < end && end < chars.len() && chars[end - 1] == '\r' {
            end - 1
        } else {
            end
        };
        let line: Vec<char> = slice(&chars, start, stop);
        let ghost k = latencies@.len() as int;
        proof {
            let rest = lines_from(text@, start as int);
            assert(rest[0] == line@);
            assert(rows.skip(k).len() > 0);
            assert(rows[k] == line@);
            assert(lines_from(text@, end + 1) =~= rest.skip(1));
            assert(rest.skip(1) =~= rows.skip(k + 1));
        }
        match read_row(&line) {
            None => {
                let row = text.substring_char(start, stop).to_owned();
                let e = ComparisonError::InvalidRow(row);
                assert(e.describes(rows[k]));
                return Err(e);
            },
            Some(Err(number)) => {
                let e = ComparisonError::Number(number);
                assert(e.describes(rows[k]));
                return Err(e);
            },
            Some(Ok(ns)) => {
                latencies.push(Duration::from_nanos(ns));
                assert(latencies@[k]@ == ns);
            },
        }
        if end == chars.len() {
            start = end;
        } else {
            start = end + 1;
        }
    }
    assert(rows.skip(latencies@.len() as int).len() == 0);
    Ok(latencies)
}

/// The heading of a saved run.
pub open spec fn heading() -> Seq<char> {
    "frame,latency_ns,gate_wait_ns,missed_deadline"@
}

/// Whether the frame at `index` took longer than the frame period.
pub open spec fn frame_missed(result: RunResult, index: int) -> bool {
    result.frame_latencies@[index]@ > result.frame_period@
}

/// The row of the frame at `index`: its number, its latency and its wait for the
/// gate in nanoseconds, and whether it missed its deadline.
pub open spec fn csv_row(result: RunResult, index: int) -> Seq<char> {
    decimal(index as nat) + seq![','] + decimal(result.frame_latencies@[index]@) + seq![',']
        + decimal(result.gate_waits@[index]@) + seq![','] + if frame_missed(result, index) {
        "true"@
    } else {
        "false"@
    }
}

/// The rows of the first `count` frames, each with its line feed.
pub open spec fn csv_rows(result: RunResult, count: nat) -> Seq<char>
    decreases count,
{
    if count == 0 {
        Seq::empty()
    } else {
        csv_rows(result, (count - 1) as nat) + csv_row(result, count - 1) + seq!['\n']
    }
}

/// How many frames were measured in full.
pub open spec fn frame_count(result: RunResult) -> nat {
    if result.frame_latencies@.len() <= result.gate_waits@.len() {
        result.frame_latencies@.len()
    } else {
        result.gate_waits@.len()
    }
}

/// A run as CSV.
pub open spec fn csv_of(result: RunResult) -> Seq<char> {
    heading() + seq!['\n'] + csv_rows(result, frame_count(result))
}

/// The text that a run is saved as: a heading and a row for each frame.
pub fn csv_text(result: &RunResult) -> (text: String)
    ensures
        text@ == csv_of(*result),
{
    proof {
        reveal_strlit(",");
        reveal_strlit("\n");
    }
    let mut text = "frame,latency_ns,gate_wait_ns,missed_deadline".to_owned();
    text.append("\n");
    let period: u128 = result.frame_period.as_nanos();
    let mut i: usize = 0;
    assert(text@ =~= heading() + seq!['\n'] + csv_rows(*result, 0));
    while i < result.frame_latencies.len() && i < result.gate_waits.len()
        invariant
            i <= frame_count(*result),
            period == result.frame_period@,
            ","@ =~= seq![','],
            "\n"@ =~= seq!['\n'],
            text@ == heading() + seq!['\n'] + csv_rows(*result, i as nat),
        decreases frame_count(*result) - i,
    {
        let ghost before = text@;
        let latency: u128 = result.frame_latencies[i].as_nanos();
        push_decimal(&mut text, i as u128);
        text.append(",");
        push_decimal(&mut text, latency);
        text.append(",");
        push_decimal(&mut text, result.gate_waits[i].as_nanos());
        text.append(",");
        if latency > period {
            text.append("true");
        } else {
            text.append("false");
        }
        assert(text@ =~= before + csv_row(*result, i as int));
        text.append("\n");
        i = i + 1;
        assert(text@ =~= heading() + seq!['\n'] + csv_rows(*result, i as nat));
    }
    text
}

/// Text that ends where a line ends has the lines of its two parts.
proof fn lemma_lines_append(head: Seq<char>, tail: Seq<char>, from: int)
    requires
        0 <= from <= head.len(),
        head.len() > 0,
        head.last() == '\n',
    ensures
        lines_from(head + tail, from) == lines_from(head, from) + lines_from(
            head + tail,
            head.len() as int,
        ),
    decreases head.len() - from,
{
    let text = head + tail;
    if from == head.len() {
        assert(lines_from(head, from) =~= Seq::empty());
        assert(lines_from(text, from) =~= Seq::<Seq<char>>::empty() + lines_from(text, from));
    } else {
        lemma_place_of(head, '\n', from);
        let end = place_of(head, '\n', from);
        if end == head.len() {
            assert(head[head.len() - 1] != '\n');
        }
        lemma_place_is(text, '\n', from, end);
        assert(line_at(text, from, end) =~= line_at(head, from, end));
        lemma_lines_append(head, tail, end + 1);
        assert(lines_from(text, from) =~= lines_from(head, from) + lines_from(
            text,
            head.len() as int,
        ));
    }
}

/// One more line is one more line.
proof fn lemma_one_more_line(head: Seq<char>, line: Seq<char>)
    requires
        head.len() == 0 || head.last() == '\n',
        forall|i: int| 0 <= i < line.len() ==> line[i] != '\n' && line[i] != '\r',
    ensures
        lines(head + line + seq!['\n']) == lines(head).push(line),
{
    let text = head + line + seq!['\n'];
    let start = head.len() as int;
    let end = start + line.len();
    lemma_place_is(text, '\n', start, end);
    assert(line_at(text, start, end) =~= line);
    assert(lines_from(text, end + 1) =~= Seq::empty());
    assert(lines_from(text, start) =~= seq![line]);
    if head.len() > 0 {
        assert(text =~= head + (line + seq!['\n']));
        lemma_lines_append(head, line + seq!['\n'], 0);
    }
    assert(lines(text) =~= lines(head).push(line));
}

/// A row is a single line, and its second field is the latency.
proof fn lemma_csv_row(result: RunResult, index: int)
    ensures
        forall|i: int|
            0 <= i < csv_row(result, index).len() ==> csv_row(result, index)[i] != '\n' && csv_row(
                result,
                index,
            )[i] != '\r',
        second_field(csv_row(result, index)) == Some(decimal(result.frame_latencies@[index]@)),
{
    let row = csv_row(result, index);
    let number = decimal(index as nat);
    let latency = decimal(result.frame_latencies@[index]@);
    let wait = decimal(result.gate_waits@[index]@);
    let flag = if frame_missed(result, index) {
        "true"@
    } else {
        "false"@
    };
    lemma_decimal_is_digits(index as nat);
    lemma_decimal_is_digits(result.frame_latencies@[index]@);
    lemma_decimal_is_digits(result.gate_waits@[index]@);
    reveal_strlit("true");
    reveal_strlit("false");
    let a = number.len() as int;
    let b = a + 1 + latency.len();
    let c = b + 1 + wait.len();
    assert(row.len() == c + 1 + flag.len());
    assert forall|i: int| 0 <= i < row.len() implies row[i] != '\n' && row[i] != '\r' by {
        if i < a {
            assert(row[i] == number[i]);
        } else if a < i < b {
            assert(row[i] == latency[i - a - 1]);
        } else if b < i < c {
            assert(row[i] == wait[i - b - 1]);
        } else if c < i {
            assert(row[i] == flag[i - c - 1]);
        }
    }
    assert forall|i: int| 0 <= i < a implies row[i] != ',' by {
        assert(row[i] == number[i]);
        assert(is_digit(number[i]));
    }
    assert forall|i: int| a < i < b implies row[i] != ',' by {
        assert(row[i] == latency[i - a - 1]);
        assert(is_digit(latency[i - a - 1]));
    }
    lemma_place_is(row, ',', 0, a);
    lemma_place_is(row, ',', a + 1, b);
    assert(row.subrange(a + 1, b) =~= latency);
}

/// The lines of the first `count` rows are these rows.
proof fn lemma_csv_lines(result: RunResult, count: nat)
    ensures
        lines(heading() + seq!['\n'] + csv_rows(result, count)) == seq![heading()] + Seq::new(
            count,
            |i: int| csv_row(result, i),
        ),
        (heading() + seq!['\n'] + csv_rows(result, count)).last() == '\n',
    decreases count,
{
    let start = heading() + seq!['\n'];
    if count == 0 {
        reveal_strlit("frame,latency_ns,gate_wait_ns,missed_deadline");
        assert(start + csv_rows(result, 0) =~= Seq::<char>::empty() + heading() + seq!['\n']);
        lemma_one_more_line(Seq::empty(), heading());
        assert(lines(Seq::<char>::empty()) =~= Seq::empty());
        assert(lines(start + csv_rows(result, 0)) =~= seq![heading()] + Seq::new(
            0,
            |i: int| csv_row(result, i),
        ));
    } else {
        let before = (count - 1) as nat;
        lemma_csv_lines(result, before);
        lemma_csv_row(result, count - 1);
        let head = start + csv_rows(result, before);
        lemma_one_more_line(head, csv_row(result, count - 1));
        assert(start + csv_rows(result, count) =~= head + csv_row(result, count - 1) + seq!['\n']);
        assert(lines(start + csv_rows(result, count)) =~= seq![heading()] + Seq::new(
            count,
            |i: int| csv_row(result, i),
        ));
    }
}

/// What was saved can be loaded as a baseline: a saved run loads as the latencies
/// of its frames, as long as each is a 64-bit count of nanoseconds.
pub proof fn saved_run_loads_back(result: RunResult)
    requires
        forall|i: int|
            0 <= i < result.frame_latencies@.len() ==> (#[trigger] result.frame_latencies@[i])@
                <= u64::MAX,
    ensures
        loads_as(csv_of(result), result.frame_latencies@.take(frame_count(result) as int)),
{
    let count = frame_count(result);
    lemma_csv_lines(result, count);
    let rows = Seq::new(count, |i: int| csv_row(result, i));
    assert((seq![heading()] + rows).skip(1) =~= rows);
    assert forall|i: int| 0 <= i < count implies row_of(#[trigger] rows[i]) == Row::Latency(
        result.frame_latencies@[i]@ as u64,
    ) by {
        lemma_csv_row(result, i);
        number_reads_back_decimal(result.frame_latencies@[i]@ as u64);
    }
    let latencies = result.frame_latencies@.take(count as int);
    assert forall|i: int| 0 <= i < latencies.len() implies (#[trigger] latencies[i])@ <= u64::MAX
        && row_of(rows[i]) == Row::Latency(latencies[i]@ as u64) by {
        assert(latencies[i] == result.frame_latencies@[i]);
    }
}

/// A measured run that was saved loads as all its latencies, in order.
pub proof fn measured_run_loads_back(result: RunResult)
    requires
        result.coherent(),
    ensures
        loads_as(csv_of(result), result.frame_latencies@),
{
    saved_run_loads_back(result);
    assert(result.frame_latencies@.take(frame_count(result) as int) =~= result.frame_latencies@);
}

/// The field of `line` behind `k` commas, counted from `from`.
pub open spec fn field_from(line: Seq<char>, from: int, k: nat) -> Option<Seq<char>>
    decreases k,
{
    let comma = place_of(line, ',', from);
    if k == 0 {
        Some(line.subrange(from, comma))
    } else if comma == line.len() {
        None
    } else {
        field_from(line, comma + 1, (k - 1) as nat)
    }
}

/// The field of `line` behind `k` commas.
pub open spec fn field(line: Seq<char>, k: nat) -> Option<Seq<char>> {
    field_from(line, 0, k)
}

/// A field without commas ends at the next one.
proof fn lemma_field_at(line: Seq<char>, from: int, to: int, k: nat)
    requires
        0 <= from <= to < line.len(),
        line[to] == ',',
        forall|i: int| from <= i < to ==> line[i] != ',',
    ensures
        k == 0 ==> field_from(line, from, k) == Some(line.subrange(from, to)),
        k > 0 ==> field_from(line, from, k) == field_from(line, to + 1, (k - 1) as nat),
{
    lemma_place_is(line, ',', from, to);
}

/// Every column of a saved row reads back: the number of the frame, its latency, its wait
/// and whether its latency exceeds the frame period.
pub proof fn saved_row_reads_back(result: RunResult, i: int)
    requires
        0 <= i < result.frame_latencies@.len(),
        i < result.gate_waits@.len(),
    ensures
        ({
            let row = lines(csv_of(result))[i + 1];
            let latency = result.frame_latencies@[i]@;
            let wait = result.gate_waits@[i]@;
            &&& field(row, 0) matches Some(text) && (i <= u64::MAX ==> number_value(text) == Ok::<
                u64,
                NumberError,
            >(i as u64))
            &&& field(row, 1) matches Some(text) && (latency <= u64::MAX ==> number_value(text)
                == Ok::<u64, NumberError>(latency as u64))
            &&& field(row, 2) matches Some(text) && (wait <= u64::MAX ==> number_value(text)
                == Ok::<u64, NumberError>(wait as u64))
            &&& field(row, 3) == Some(
                if latency > result.frame_period@ {
                    "true"@
                } else {
                    "false"@
                },
            )
            &&& field(row, 4) is None
        }),
{
    saved_text_has_a_row_per_frame(result);
    lemma_csv_lines(result, frame_count(result));
    let row = csv_row(result, i);
    assert(lines(csv_of(result))[i + 1] == row);
    let number = decimal(i as nat);
    let latency = decimal(result.frame_latencies@[i]@);
    let wait = decimal(result.gate_waits@[i]@);
    let flag = if frame_missed(result, i) {
        "true"@
    } else {
        "false"@
    };
    lemma_decimal_is_digits(i as nat);
    lemma_decimal_is_digits(result.frame_latencies@[i]@);
    lemma_decimal_is_digits(result.gate_waits@[i]@);
    reveal_strlit("true");
    reveal_strlit("false");
    let a = number.len() as int;
    let b = a + 1 + latency.len();
    let c = b + 1 + wait.len();
    assert(row.len() == c + 1 + flag.len());
    assert forall|j: int| 0 <= j < a implies row[j] != ',' by {
        assert(row[j] == number[j]);
        assert(is_digit(number[j]));
    }
    assert forall|j: int| a < j < b implies row[j] != ',' by {
        assert(row[j] == latency[j - a - 1]);
        assert(is_digit(latency[j - a - 1]));
    }
    assert forall|j: int| b < j < c implies row[j] != ',' by {
        assert(row[j] == wait[j - b - 1]);
        assert(is_digit(wait[j - b - 1]));
    }
    assert forall|j: int| c < j < row.len() implies row[j] != ',' by {
        assert(row[j] == flag[j - c - 1]);
    }
    lemma_place_is(row, ',', c + 1, row.len() as int);
    assert forall|k: nat| k <= 4 implies {
        &&& #[trigger] field_from(row, 0, k) == if k == 0 {
            Some(row.subrange(0, a))
        } else {
            field_from(row, a + 1, (k - 1) as nat)
        }
    } by {
        lemma_field_at(row, 0, a, k);
    }
    assert forall|k: nat| k <= 3 implies {
        &&& #[trigger] field_from(row, a + 1, k) == if k == 0 {
            Some(row.subrange(a + 1, b))
        } else {
            field_from(row, b + 1, (k - 1) as nat)
        }
    } by {
        lemma_field_at(row, a + 1, b, k);
    }
    assert forall|k: nat| k <= 2 implies {
        &&& #[trigger] field_from(row, b + 1, k) == if k == 0 {
            Some(row.subrange(b + 1, c))
        } else {
            field_from(row, c + 1, (k - 1) as nat)
        }
    } by {
        lemma_field_at(row, b + 1, c, k);
    }
    assert(row.subrange(0, a) =~= number);
    assert(row.subrange(a + 1, b) =~= latency);
    assert(row.subrange(b + 1, c) =~= wait);
    assert(row.subrange(c + 1, row.len() as int) =~= flag);
    assert(field(row, 0) == Some(number));
    assert(field(row, 1) == Some(latency));
    assert(field_from(row, a + 1, 1) == Some(wait));
    assert(field(row, 2) == Some(wait));
    assert(field_from(row, c + 1, 0) == Some(flag));
    assert(field_from(row, b + 1, 1) == Some(flag));
    assert(field_from(row, a + 1, 2) == Some(flag));
    assert(field(row, 3) == Some(flag));
    assert(field_from(row, c + 1, 1) is None);
    assert(field_from(row, b + 1, 2) is None);
    assert(field_from(row, a + 1, 3) is None);
    assert(field(row, 4) is None);
    if i <= u64::MAX {
        number_reads_back_decimal(i as u64);
    }
    if result.frame_latencies@[i]@ <= u64::MAX {
        number_reads_back_decimal(result.frame_latencies@[i]@ as u64);
    }
    if result.gate_waits@[i]@ <= u64::MAX {
        number_reads_back_decimal(result.gate_waits@[i]@ as u64);
    }
}

/// A saved run is a heading and one row for each frame that has a latency and a wait.
pub proof fn saved_text_has_a_row_per_frame(result: RunResult)
    ensures
        ({
            let all = lines(csv_of(result));
            let latencies = result.frame_latencies@.len();
            let waits = result.gate_waits@.len();
            &&& all.len() == 1 + if latencies < waits {
                latencies
            } else {
                waits
            }
            &&& all[0] == "frame,latency_ns,gate_wait_ns,missed_deadline"@
        }),
{
    lemma_csv_lines(result, frame_count(result));
}

/// Lines are taken apart at line feeds: a line and a line feed, behind whole lines, are
/// one more line, with or without a carriage return between them, and so is text at the
/// end that no line feed follows.
pub proof fn lines_end_at_line_feeds(head: Seq<char>, line: Seq<char>)
    requires
        head.len() == 0 || head.last() == '\n',
        forall|i: int| 0 <= i < line.len() ==> line[i] != '\n',
    ensures
        lines(Seq::empty()) == Seq::<Seq<char>>::empty(),
        line.len() == 0 || line.last() != '\r' ==> lines(head + line + seq!['\n']) == lines(
            head,
        ).push(line),
        lines(head + line + seq!['\r', '\n']) == lines(head).push(line),
        line.len() > 0 ==> lines(head + line) == lines(head).push(line),
{
    let start = head.len() as int;
    let end = start + line.len();
    assert(lines(Seq::<char>::empty()) =~= Seq::empty());
    let fed = head + line + seq!['\n'];
    lemma_place_is(fed, '\n', start, end);
    assert(lines_from(fed, end + 1) =~= Seq::empty());
    if line.len() == 0 || line.last() != '\r' {
        assert(line.len() > 0 ==> fed[end - 1] == line.last());
        assert(line_at(fed, start, end) =~= line);
        assert(lines_from(fed, start) =~= seq![line]);
    }
    let returned = head + line + seq!['\r', '\n'];
    lemma_place_is(returned, '\n', start, end + 1);
    assert(returned[end] == '\r');
    assert(line_at(returned, start, end + 1) =~= line);
    assert(lines_from(returned, end + 2) =~= Seq::empty());
    assert(lines_from(returned, start) =~= seq![line]);
    let open = head + line;
    if line.len() > 0 {
        lemma_place_is(open, '\n', start, end);
        assert(line_at(open, start, end) =~= line);
        assert(lines_from(open, end + 1) =~= Seq::empty());
        assert(lines_from(open, start) =~= seq![line]);
    }
    if head.len() > 0 {
        assert(fed =~= head + (line + seq!['\n']));
        lemma_lines_append(head, line + seq!['\n'], 0);
        assert(returned =~= head + (line + seq!['\r', '\n']));
        lemma_lines_append(head, line + seq!['\r', '\n'], 0);
        lemma_lines_append(head, line, 0);
    }
    if line.len() == 0 || line.last() != '\r' {
        assert(lines(fed) =~= lines(head).push(line));
    }
    assert(lines(returned) =~= lines(head).push(line));
    if line.len() > 0 {
        assert(lines(open) =~= lines(head).push(line));
    }
}

/// An error names the row that is too short in full, or says what is wrong with the number
/// in the second field.
pub proof fn an_error_says_what_is_wrong_with_the_row(e: ComparisonError, line: Seq<char>)
    requires
        e.describes(line),
    ensures
        match e {
            ComparisonError::InvalidRow(row) => {
                &&& row@ == line
                &&& !line.contains(',')
                &&& e.text() == "invalid comparison row: "@ + line
            },
            ComparisonError::Number(error) => {
                &&& line.contains(',')
                &&& field(line, 1) matches Some(text) && number_value(text) == Err::<
                    u64,
                    NumberError,
                >(error)
                &&& e.text() == error.text()
            },
        },
{
    lemma_place_of(line, ',', 0);
    let comma = place_of(line, ',', 0);
    if comma < line.len() {
        assert(line[comma] == ',');
        lemma_field_at(line, 0, comma, 1);
        assert(field_from(line, comma + 1, 0) == second_field(line));
    } else if line.contains(',') {
        let i = choose|i: int| 0 <= i < line.len() && line[i] == ',';
        assert(line[i] != ',');
    }
}

/// The rows are the lines below the first one, whatever that says.
pub proof fn rows_are_the_lines_below_the_heading(text: Seq<char>)
    ensures
        lines(text).len() == 0 ==> rows_in(text).len() == 0,
        lines(text).len() > 0 ==> rows_in(text) == lines(text).drop_first(),
{
    if lines(text).len() > 0 {
        assert(lines(text).skip(1) =~= lines(text).drop_first());
    }
}

/// A row says what stands between its first comma and the next one or its end, and a row
/// without commas says nothing.
pub proof fn a_row_says_its_second_field(number: Seq<char>, latency: Seq<char>, rest: Seq<char>)
    requires
        forall|i: int| 0 <= i < number.len() ==> number[i] != ',',
        forall|i: int| 0 <= i < latency.len() ==> latency[i] != ',',
        rest.len() == 0 || rest[0] == ',',
    ensures
        row_of(number) is Short,
        row_of(number + seq![','] + latency + rest) == match number_value(latency) {
            Ok(ns) => Row::Latency(ns),
            Err(e) => Row::Unreadable(e),
        },
{
    lemma_place_is(number, ',', 0, number.len() as int);
    let row = number + seq![','] + latency + rest;
    let a = number.len() as int;
    let b = a + 1 + latency.len();
    assert forall|i: int| a < i < b implies row[i] != ',' by {
        assert(row[i] == latency[i - a - 1]);
    }
    lemma_place_is(row, ',', 0, a);
    lemma_place_is(row, ',', a + 1, b);
    assert(row.subrange(a + 1, b) =~= latency);
}

/// How many of the first `count` rows say that the deadline was missed.
pub open spec fn missed_rows(result: RunResult, count: nat) -> nat
    decreases count,
{
    if count == 0 {
        0
    } else {
        missed_rows(result, (count - 1) as nat) + if frame_missed(result, count - 1) {
            1nat
        } else {
            0
        }
    }
}

proof fn lemma_missed_rows(result: RunResult, count: nat)
    requires
        count <= result.frame_latencies@.len(),
    ensures
        missed_rows(result, count) == late_frames(
            nanos(result.frame_latencies@).take(count as int),
            result.frame_period@,
        ),
    decreases count,
{
    if count > 0 {
        lemma_missed_rows(result, (count - 1) as nat);
        let all = nanos(result.frame_latencies@);
        assert(all.take(count as int).drop_last() =~= all.take(count - 1));
    }
}

/// A measured run that was saved has as many rows that say so as deadlines were
/// missed.
pub proof fn saved_misses_are_those_counted(result: RunResult)
    requires
        result.coherent(),
    ensures
        missed_rows(result, frame_count(result)) == result.deadline_misses,
{
    let all = nanos(result.frame_latencies@);
    lemma_missed_rows(result, frame_count(result));
    assert(all.take(all.len() as int) =~= all);
}

/// A text loads in one way only.
pub proof fn text_loads_one_way(text: Seq<char>, a: Seq<Duration>, b: Seq<Duration>)
    requires
        loads_as(text, a),
        loads_as(text, b),
    ensures
        a == b,
{
    assert forall|i: int| 0 <= i < a.len() implies a[i] == b[i] by {
        assert(row_of(rows_in(text)[i]) == Row::Latency(a[i]@ as u64));
        assert(row_of(rows_in(text)[i]) == Row::Latency(b[i]@ as u64));
        duration_is_its_nanos(a[i], b[i]);
    }
    assert(a =~= b);
}

} // verus!
