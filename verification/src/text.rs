//! Building text: decimal numbers, repetition and column alignment.

use vstd::prelude::*;

verus! {

/// The decimal digit `d` as a character.
pub open spec fn digit_char(d: nat) -> char
    recommends
        d < 10,
{
    (48 + d) as char
}

/// `n` in decimal, without leading zeros.
pub open spec fn decimal(n: nat) -> Seq<char>
    decreases n,
{
    if n < 10 {
        seq![digit_char(n)]
    } else {
        decimal(n / 10).push(digit_char(n % 10))
    }
}

/// The last `width` decimal digits of `n`, with leading zeros.
pub open spec fn padded_decimal(n: nat, width: nat) -> Seq<char>
    decreases width,
{
    if width == 0 {
        Seq::empty()
    } else {
        padded_decimal(n / 10, (width - 1) as nat).push(digit_char(n % 10))
    }
}

/// `n` copies of `c`.
pub open spec fn repeated(c: char, n: nat) -> Seq<char> {
    Seq::new(n, |i: int| c)
}

/// `s` moved to the right end of a column `width` characters wide. Text that is
/// already as wide as the column is left as it is.
pub open spec fn right_aligned(s: Seq<char>, width: nat) -> Seq<char> {
    if s.len() < width {
        repeated(' ', (width - s.len()) as nat) + s
    } else {
        s
    }
}

/// `s` at the left end of a column `width` characters wide.
pub open spec fn left_aligned(s: Seq<char>, width: nat) -> Seq<char> {
    if s.len() < width {
        s + repeated(' ', (width - s.len()) as nat)
    } else {
        s
    }
}

/// Whether `part` stands somewhere in `text`.
pub open spec fn holds_part(text: Seq<char>, part: Seq<char>) -> bool {
    exists|i: int|
        0 <= i <= i + part.len() <= text.len() && #[trigger] text.subrange(i, i + part.len())
            == part
}

/// Whether `text` ends with `end`.
pub open spec fn ends_with(text: Seq<char>, end: Seq<char>) -> bool {
    &&& end.len() <= text.len()
    &&& text.skip(text.len() - end.len()) == end
}

/// Aligned text is as wide as its column, or as wide as the text where that is wider. It
/// has the text at its end or at its start, and is blank elsewhere.
pub proof fn alignment_only_adds_blanks(s: Seq<char>, width: nat)
    ensures
        ({
            let right = right_aligned(s, width);
            let left = left_aligned(s, width);
            let len = if s.len() < width {
                width
            } else {
                s.len()
            };
            &&& right.len() == len
            &&& left.len() == len
            &&& ends_with(right, s)
            &&& left.take(s.len() as int) == s
            &&& forall|i: int| 0 <= i < len - s.len() ==> #[trigger] right[i] == ' '
            &&& forall|i: int| s.len() <= i < len ==> #[trigger] left[i] == ' '
        }),
{
    let right = right_aligned(s, width);
    assert(right.skip(right.len() - s.len()) =~= s);
    assert(left_aligned(s, width).take(s.len() as int) =~= s);
}

/// Repeating a character gives that character, as often as asked for.
pub proof fn repeating_gives_the_character(c: char, n: nat)
    ensures
        repeated(c, n).len() == n,
        forall|i: int| 0 <= i < n ==> #[trigger] repeated(c, n)[i] == c,
{
}

/// What is put between two texts stands there.
pub proof fn lemma_part_between(before: Seq<char>, part: Seq<char>, after: Seq<char>)
    ensures
        holds_part(before + part + after, part),
{
    let text = before + part + after;
    let i = before.len() as int;
    assert(text.subrange(i, i + part.len()) =~= part);
}

/// More text leaves a part where it is.
pub proof fn lemma_part_stays(text: Seq<char>, part: Seq<char>, after: Seq<char>)
    requires
        holds_part(text, part),
    ensures
        holds_part(text + after, part),
{
    let i = choose|i: int|
        0 <= i <= i + part.len() <= text.len() && #[trigger] text.subrange(i, i + part.len())
            == part;
    assert((text + after).subrange(i, i + part.len()) =~= text.subrange(i, i + part.len()));
}

/// Two more texts leave a part where it is.
pub proof fn lemma_parts_stay(text: Seq<char>, part: Seq<char>, a: Seq<char>, b: Seq<char>)
    requires
        holds_part(text, part),
    ensures
        holds_part(text + a + b, part),
{
    lemma_part_stays(text, part, a);
    lemma_part_stays(text + a, part, b);
}

/// A value between two labels stands there with them.
pub proof fn lemma_labelled(
    before: Seq<char>,
    label: Seq<char>,
    value: Seq<char>,
    next: Seq<char>,
)
    ensures
        holds_part(before + label + value + next, label + value + next),
{
    let part = label + value + next;
    assert(before + label + value + next =~= before + part + Seq::<char>::empty());
    lemma_part_between(before, part, Seq::empty());
}

/// Appends the decimal digit `d`.
pub(crate) fn push_digit(out: &mut String, d: usize)
    requires
        d < 10,
    ensures
        final(out)@ == old(out)@.push(digit_char(d as nat)),
{
    proof {
        reveal_strlit("0123456789");
    }
    let digits = "0123456789";
    assert(digits.is_ascii());
    let one = digits.substring_ascii(d, d + 1);
    assert(one@ =~= seq![digit_char(d as nat)]);
    out.append(one);
}

/// Appends `n` in decimal.
pub(crate) fn push_decimal(out: &mut String, n: u128)
    ensures
        final(out)@ == old(out)@ + decimal(n as nat),
    decreases n,
{
    if n >= 10 {
        push_decimal(out, n / 10);
    }
    push_digit(out, (n % 10) as usize);
}

/// Appends the last `width` decimal digits of `n`.
pub(crate) fn push_padded_decimal(out: &mut String, n: u128, width: usize)
    ensures
        final(out)@ == old(out)@ + padded_decimal(n as nat, width as nat),
    decreases width,
{
    if width > 0 {
        push_padded_decimal(out, n / 10, width - 1);
        push_digit(out, (n % 10) as usize);
    }
}

/// Appends `n` copies of the single character of `unit`.
pub(crate) fn push_repeated(out: &mut String, unit: &str, n: usize)
    requires
        unit@.len() == 1,
    ensures
        final(out)@ == old(out)@ + repeated(unit@[0], n as nat),
{
    let mut i: usize = 0;
    while i < n
        invariant
            i <= n,
            unit@.len() == 1,
            out@ == old(out)@ + repeated(unit@[0], i as nat),
        decreases n - i,
    {
        out.append(unit);
        i = i + 1;
        assert(out@ =~= old(out)@ + repeated(unit@[0], i as nat));
    }
}

/// Appends `s` at the right end of a column `width` characters wide.
pub(crate) fn push_right_aligned(out: &mut String, s: &str, width: usize)
    ensures
        final(out)@ == old(out)@ + right_aligned(s@, width as nat),
{
    proof {
        reveal_strlit(" ");
    }
    let len: usize = s.unicode_len();
    if len < width {
        push_repeated(out, " ", width - len);
    }
    out.append(s);
}

/// Appends `s` at the left end of a column `width` characters wide.
pub(crate) fn push_left_aligned(out: &mut String, s: &str, width: usize)
    ensures
        final(out)@ == old(out)@ + left_aligned(s@, width as nat),
{
    proof {
        reveal_strlit(" ");
    }
    let len: usize = s.unicode_len();
    out.append(s);
    if len < width {
        push_repeated(out, " ", width - len);
    }
}

} // verus!
