//! Reading whole numbers.

use vstd::prelude::*;

use crate::text::{decimal, padded_decimal};

verus! {

/// Why text is not a number.
#[derive(Clone, Copy, Debug, PartialEq, Eq, Structural)]
pub enum NumberError {
    /// There is no text.
    Empty,
    /// A character is not a decimal digit.
    InvalidDigit,
    /// The number does not fit 64 bits.
    TooLarge,
}

impl NumberError {
    /// What to tell the user.
    pub open spec fn text(self) -> Seq<char> {
        match self {
            NumberError::Empty => "cannot parse integer from empty string"@,
            NumberError::InvalidDigit => "invalid digit found in string"@,
            NumberError::TooLarge => "number too large to fit in target type"@,
        }
    }

    /// What to tell the user.
    pub fn to_string(&self) -> (text: String)
        ensures
            text@ == self.text(),
    {
        match self {
            NumberError::Empty => "cannot parse integer from empty string".to_owned(),
            NumberError::InvalidDigit => "invalid digit found in string".to_owned(),
            NumberError::TooLarge => "number too large to fit in target type".to_owned(),
        }
    }
}

/// Whether `c` is a decimal digit.
pub open spec fn is_digit(c: char) -> bool {
    '0' <= c <= '9'
}

/// The number that a string of digits spells, or what is wrong with the first
/// character at which it stops being one that fits.
pub open spec fn digits_value(s: Seq<char>) -> Result<u64, NumberError>
    decreases s.len(),
{
    if s.len() == 0 {
        Ok(0)
    } else {
        match digits_value(s.drop_last()) {
            Err(e) => Err(e),
            Ok(n) => if !is_digit(s.last()) {
                Err(NumberError::InvalidDigit)
            } else if n * 10 + (s.last() as int - 48) > u64::MAX {
                Err(NumberError::TooLarge)
            } else {
                Ok((n * 10 + (s.last() as int - 48)) as u64)
            },
        }
    }
}

/// The number that `s` spells: decimal digits, behind a plus sign or not.
pub open spec fn number_value(s: Seq<char>) -> Result<u64, NumberError> {
    if s.len() == 0 {
        Err(NumberError::Empty)
    } else if s[0] == '+' {
        if s.len() == 1 {
            Err(NumberError::InvalidDigit)
        } else {
            digits_value(s.skip(1))
        }
    } else {
        digits_value(s)
    }
}

/// The digits of `s` from `from` to `to`, as a number.
fn read_digits(s: &Vec<char>, from: usize, to: usize) -> (r: Result<u64, NumberError>)
    requires
        from <= to <= s@.len(),
    ensures
        r == digits_value(s@.subrange(from as int, to as int)),
{
    let mut n: u64 = 0;
    let mut i: usize = from;
    let ghost all = s@.subrange(from as int, to as int);
    assert(s@.subrange(from as int, from as int) =~= Seq::<char>::empty());
    while i < to
        invariant
            from <= i <= to <= s@.len(),
            digits_value(s@.subrange(from as int, i as int)) == Ok::<u64, NumberError>(n),
            all == s@.subrange(from as int, to as int),
        decreases to - i,
    {
        let c: char = s[i];
        let ghost next = s@.subrange(from as int, i + 1);
        proof {
            assert(next.drop_last() =~= s@.subrange(from as int, i as int));
            assert(next.last() == c);
            assert(next =~= all.take(i + 1 - from));
            if digits_value(next) is Err {
                lemma_error_stays(all, i + 1 - from);
            }
        }
        if c < '0' || c > '9' {
            return Err(NumberError::InvalidDigit);
        }
        let wider: u128 = n as u128 * 10 + (c as u32 - 48) as u128;
        if wider > u64::MAX as u128 {
            return Err(NumberError::TooLarge);
        }
        n = wider as u64;
        i = i + 1;
    }
    Ok(n)
}

/// An error in the first characters is the error of the whole.
proof fn lemma_error_stays(s: Seq<char>, k: int)
    requires
        0 <= k <= s.len(),
        digits_value(s.take(k)) is Err,
    ensures
        digits_value(s) == digits_value(s.take(k)),
    decreases s.len(),
{
    if k == s.len() {
        assert(s.take(k) =~= s);
    } else {
        assert(s.drop_last().take(k) =~= s.take(k));
        lemma_error_stays(s.drop_last(), k);
    }
}

/// Reads the characters of `s` from `from` to `to` as a number.
pub(crate) fn read_number(s: &Vec<char>, from: usize, to: usize) -> (r: Result<u64, NumberError>)
    requires
        from <= to <= s@.len(),
    ensures
        r == number_value(s@.subrange(from as int, to as int)),
{
    let ghost all = s@.subrange(from as int, to as int);
    if from == to {
        return Err(NumberError::Empty);
    }
    if s[from] == '+' {
        assert(all.skip(1) =~= s@.subrange(from + 1, to as int));
        if to - from == 1 {
            return Err(NumberError::InvalidDigit);
        }
        return read_digits(s, from + 1, to);
    }
    read_digits(s, from, to)
}

/// What is written in decimal is read back.
pub proof fn number_reads_back_decimal(n: u64)
    ensures
        number_value(decimal(n as nat)) == Ok::<u64, NumberError>(n),
{
    lemma_digits_of_decimal(n);
    lemma_decimal_is_digits(n as nat);
    assert(is_digit(decimal(n as nat)[0]));
}

/// A decimal number is its tenth, in decimal, and its last digit; it begins with a zero
/// only where it is zero.
pub proof fn decimals_end_in_the_last_digit(n: nat)
    ensures
        n < 10 ==> decimal(n) == seq![(48 + n) as char],
        n >= 10 ==> decimal(n) == decimal(n / 10).push((48 + n % 10) as char),
        n > 0 ==> decimal(n)[0] != '0',
    decreases n,
{
    lemma_decimal_is_digits(n);
    if n >= 10 {
        decimals_end_in_the_last_digit(n / 10);
        lemma_decimal_is_digits(n / 10);
    }
}

/// Digits with leading zeros read back, and are as many as asked for.
pub proof fn padded_digits_read_back(n: u64, width: nat)
    requires
        width <= 19,
        n < pow10(width),
    ensures
        padded_decimal(n as nat, width).len() == width,
        digits_value(padded_decimal(n as nat, width)) == Ok::<u64, NumberError>(n),
    decreases width,
{
    if width > 0 {
        let less = (width - 1) as nat;
        padded_digits_read_back((n / 10) as u64, less);
        let s = padded_decimal(n as nat, width);
        assert(s.drop_last() =~= padded_decimal((n / 10) as nat, less));
    }
}

/// Only digits, behind a plus sign or not, spell a number, and up to nineteen of them
/// always do.
pub proof fn only_digits_spell_a_number(s: Seq<char>)
    ensures
        number_value(s) is Ok ==> {
            &&& s.len() > 0
            &&& '0' <= s.last() <= '9'
            &&& '0' <= s[0] <= '9' || s[0] == '+'
            &&& forall|i: int| 0 < i < s.len() ==> '0' <= #[trigger] s[i] <= '9'
        },
        0 < s.len() <= 19 && (forall|i: int| 0 <= i < s.len() ==> '0' <= #[trigger] s[i] <= '9')
            ==> number_value(s) is Ok,
{
    lemma_only_digits(s);
    if s.len() > 0 {
        lemma_only_digits(s.skip(1));
        if s[0] == '+' && digits_value(s.skip(1)) is Ok {
            assert forall|i: int| 0 < i < s.len() implies '0' <= #[trigger] s[i] <= '9' by {
                assert(s.skip(1)[i - 1] == s[i]);
            }
        }
    }
}

/// One more digit makes ten times the number and the digit, unless that is too large, and
/// a plus sign in front makes no difference.
pub proof fn digits_count_by_tens(s: Seq<char>, n: u64, d: u64)
    requires
        number_value(s) == Ok::<u64, NumberError>(n),
        d < 10,
    ensures
        n * 10 + d <= u64::MAX ==> number_value(s.push((48 + d) as char)) == Ok::<u64, NumberError>(
            (n * 10 + d) as u64,
        ),
        n * 10 + d > u64::MAX ==> number_value(s.push((48 + d) as char)) == Err::<u64, NumberError>(
            NumberError::TooLarge,
        ),
        s[0] != '+' ==> number_value(seq!['+'] + s) == number_value(s),
        number_value(seq![(48 + d) as char]) == Ok::<u64, NumberError>(d),
{
    let c = (48 + d) as char;
    let more = s.push(c);
    reveal_with_fuel(digits_value, 2);
    assert(seq![c].drop_last() =~= Seq::<char>::empty());
    assert((seq!['+'] + s).skip(1) =~= s);
    if s[0] == '+' {
        assert(more.skip(1) =~= s.skip(1).push(c));
        assert(s.skip(1).push(c).drop_last() =~= s.skip(1));
    } else {
        assert(more.drop_last() =~= s);
    }
}

proof fn lemma_only_digits(s: Seq<char>)
    ensures
        digits_value(s) is Ok ==> forall|i: int| 0 <= i < s.len() ==> '0' <= #[trigger] s[i] <= '9',
        s.len() <= 19 && (forall|i: int| 0 <= i < s.len() ==> '0' <= #[trigger] s[i] <= '9') ==> (
        digits_value(s) matches Ok(n) && n < pow10(s.len())),
    decreases s.len(),
{
    if s.len() > 0 {
        let t = s.drop_last();
        lemma_only_digits(t);
        if digits_value(s) is Ok {
            assert forall|i: int| 0 <= i < s.len() implies '0' <= #[trigger] s[i] <= '9' by {
                if i < t.len() {
                    assert(t[i] == s[i]);
                }
            }
        }
        if s.len() <= 19 && (forall|i: int| 0 <= i < s.len() ==> '0' <= #[trigger] s[i] <= '9') {
            assert forall|i: int| 0 <= i < t.len() implies '0' <= #[trigger] t[i] <= '9' by {
                assert(t[i] == s[i]);
            }
            assert('0' <= s[s.len() - 1] <= '9');
            assert(pow10(18) == 1_000_000_000_000_000_000) by {
                reveal_with_fuel(pow10, 19);
            }
            lemma_pow10_grows(t.len(), 18);
        }
    }
}

/// `10^k`.
pub open spec fn pow10(k: nat) -> nat
    decreases k,
{
    if k == 0 {
        1
    } else {
        10 * pow10((k - 1) as nat)
    }
}

proof fn lemma_pow10_grows(a: nat, b: nat)
    requires
        a <= b,
    ensures
        pow10(a) <= pow10(b),
    decreases b,
{
    if a < b {
        lemma_pow10_grows(a, (b - 1) as nat);
    }
}

proof fn lemma_digits_of_decimal(n: u64)
    ensures
        digits_value(decimal(n as nat)) == Ok::<u64, NumberError>(n),
    decreases n,
{
    let s = decimal(n as nat);
    reveal_with_fuel(digits_value, 2);
    if n < 10 {
        assert(s.drop_last() =~= Seq::<char>::empty());
    } else {
        lemma_digits_of_decimal((n / 10) as u64);
        assert(s.drop_last() =~= decimal((n / 10) as nat));
    }
}

/// A decimal number is made of digits, at least one.
pub proof fn lemma_decimal_is_digits(n: nat)
    ensures
        decimal(n).len() > 0,
        forall|i: int| 0 <= i < decimal(n).len() ==> is_digit(#[trigger] decimal(n)[i]),
    decreases n,
{
    if n >= 10 {
        lemma_decimal_is_digits(n / 10);
    }
}

} // verus!
