//! Character-level helpers shared by the link grammar and the path builders.

use vstd::prelude::*;

verus! {

/// Why a piece of text is not an unsigned 32-bit decimal number.
#[derive(Clone, Copy, Debug, PartialEq, Eq, Structural)]
pub enum IntErrorKind {
    /// The text is empty.
    Empty,
    /// The text holds something other than decimal digits after an optional `+`.
    InvalidDigit,
    /// The digits denote a number above `u32::MAX`.
    PosOverflow,
}

/// The character that writes the digit `d`.
pub open spec fn digit_char(d: nat) -> char {
    if d == 0 {
        '0'
    } else if d == 1 {
        '1'
    } else if d == 2 {
        '2'
    } else if d == 3 {
        '3'
    } else if d == 4 {
        '4'
    } else if d == 5 {
        '5'
    } else if d == 6 {
        '6'
    } else if d == 7 {
        '7'
    } else if d == 8 {
        '8'
    } else {
        '9'
    }
}

/// Whether `c` is one of `0` to `9`.
pub open spec fn is_digit(c: char) -> bool {
    48 <= c as u32 <= 57
}

/// The number that the digit `c` stands for.
pub open spec fn digit_value(c: char) -> nat {
    (c as u32 - 48) as nat
}

/// The decimal notation of `n`, without sign or leading zeros.
pub open spec fn decimal(n: nat) -> Seq<char>
    decreases n,
{
    if n < 10 {
        seq![digit_char(n)]
    } else {
        decimal(n / 10).push(digit_char(n % 10))
    }
}

/// What reading `s` digit by digit from the left gives: the number, or the
/// first thing that goes wrong on the way.
pub open spec fn parse_digits(s: Seq<char>) -> Result<nat, IntErrorKind>
    decreases s.len(),
{
    if s.len() == 0 {
        Ok(0)
    } else {
        match parse_digits(s.drop_last()) {
            Err(e) => Err(e),
            Ok(v) => if !is_digit(s.last()) {
                Err(IntErrorKind::InvalidDigit)
            } else if 10 * v + digit_value(s.last()) > u32::MAX {
                Err(IntErrorKind::PosOverflow)
            } else {
                Ok(10 * v + digit_value(s.last()))
            },
        }
    }
}

/// The unsigned 32-bit number that `s` denotes: an optional `+`, then one or
/// more decimal digits whose value fits.
pub open spec fn parse_u32(s: Seq<char>) -> Result<u32, IntErrorKind> {
    if s.len() == 0 {
        Err(IntErrorKind::Empty)
    } else {
        let digits = if s[0] == '+' {
            s.skip(1)
        } else {
            s
        };
        if digits.len() == 0 {
            Err(IntErrorKind::InvalidDigit)
        } else {
            read_as_u32(parse_digits(digits))
        }
    }
}

/// A number that was read, as an unsigned 32-bit number.
pub open spec fn read_as_u32(read: Result<nat, IntErrorKind>) -> Result<u32, IntErrorKind> {
    match read {
        Ok(v) => Ok(v as u32),
        Err(e) => Err(e),
    }
}

/// Whether `pattern` stands in `text` at position `at`.
pub open spec fn occurs_at(text: Seq<char>, pattern: Seq<char>, at: int) -> bool {
    &&& 0 <= at
    &&& at + pattern.len() <= text.len()
    &&& text.subrange(at, at + pattern.len()) == pattern
}

/// Whether `pattern` stands somewhere in `text`.
pub open spec fn occurs_in(text: Seq<char>, pattern: Seq<char>) -> bool {
    exists|at: int| occurs_at(text, pattern, at)
}

/// The number that a run of digits writes, read without a limit.
pub open spec fn digits_value(s: Seq<char>) -> nat
    decreases s.len(),
{
    if s.len() == 0 {
        0
    } else {
        10 * digits_value(s.drop_last()) + digit_value(s.last())
    }
}

/// Whether `s` holds digits only.
pub open spec fn all_digits(s: Seq<char>) -> bool {
    forall|i: int| 0 <= i < s.len() ==> is_digit(#[trigger] s[i])
}

/// A digit is the character of the number that it stands for.
pub proof fn lemma_digit_char(c: char)
    requires
        is_digit(c),
    ensures
        digit_value(c) < 10,
        digit_char(digit_value(c)) == c,
{
    let code = c as u32;
    if code == 48 {
        assert(c == '0');
    } else if code == 49 {
        assert(c == '1');
    } else if code == 50 {
        assert(c == '2');
    } else if code == 51 {
        assert(c == '3');
    } else if code == 52 {
        assert(c == '4');
    } else if code == 53 {
        assert(c == '5');
    } else if code == 54 {
        assert(c == '6');
    } else if code == 55 {
        assert(c == '7');
    } else if code == 56 {
        assert(c == '8');
    } else {
        assert(c == '9');
    }
}

/// The decimal notation of a number is one or more digits that write that
/// number.
pub proof fn lemma_decimal_digits(n: nat)
    ensures
        decimal(n).len() >= 1,
        all_digits(decimal(n)),
        digits_value(decimal(n)) == n,
    decreases n,
{
    if n < 10 {
        assert(decimal(n).drop_last() =~= Seq::<char>::empty());
        assert(digits_value(decimal(n).drop_last()) == 0);
    } else {
        lemma_decimal_digits(n / 10);
        assert(decimal(n).drop_last() =~= decimal(n / 10));
    }
}

/// Two numbers with the same decimal notation are the same number.
pub proof fn lemma_decimal_injective(n: nat, m: nat)
    requires
        decimal(n) == decimal(m),
    ensures
        n == m,
{
    lemma_decimal_digits(n);
    lemma_decimal_digits(m);
}

/// Digits that are read as a number write that number, which fits in 32
/// bits.
pub proof fn lemma_parse_digits_value(s: Seq<char>)
    requires
        parse_digits(s) is Ok,
    ensures
        all_digits(s),
        parse_digits(s) == Ok::<nat, IntErrorKind>(digits_value(s)),
        s.len() > 0 ==> digits_value(s) <= u32::MAX,
    decreases s.len(),
{
    if s.len() > 0 {
        lemma_parse_digits_value(s.drop_last());
        assert forall|i: int| 0 <= i < s.len() implies is_digit(#[trigger] s[i]) by {
            if i < s.len() - 1 {
                assert(s.drop_last()[i] == s[i]);
            }
        }
    }
}

/// The decimal notation of the number that a run of digits writes stands at
/// the end of that run: the run is that notation behind some zeros.
pub proof fn lemma_decimal_ends_digits(s: Seq<char>)
    requires
        s.len() > 0,
        all_digits(s),
    ensures
        decimal(digits_value(s)).len() <= s.len(),
        occurs_at(s, decimal(digits_value(s)), s.len() - decimal(digits_value(s)).len()),
    decreases s.len(),
{
    let v = digits_value(s);
    let front = s.drop_last();
    let d = digit_value(s.last());
    assert(is_digit(s.last()));
    lemma_digit_char(s.last());
    assert(v == 10 * digits_value(front) + d);
    if front.len() == 0 {
        assert(digits_value(front) == 0);
    }
    if v < 10 {
        assert(s.subrange(s.len() - 1, s.len() as int) =~= decimal(v));
    } else {
        assert(front.len() > 0);
        assert forall|i: int| 0 <= i < front.len() implies is_digit(#[trigger] front[i]) by {
            assert(front[i] == s[i]);
        }
        lemma_decimal_ends_digits(front);
        let w = digits_value(front);
        assert(v / 10 == w && v % 10 == d);
        let tail = decimal(w);
        assert(decimal(v) == tail.push(digit_char(d)));
        assert(s.subrange(s.len() - decimal(v).len(), s.len() as int) =~= decimal(v)) by {
            assert(front.subrange(front.len() - tail.len(), front.len() as int) == tail);
            assert forall|i: int| 0 <= i < tail.len() implies s[s.len() - decimal(v).len() + i]
                == tail[i] by {
                assert(front.subrange(front.len() - tail.len(), front.len() as int)[i]
                    == front[front.len() - tail.len() + i]);
            }
        }
    }
}

/// A text that is read as a number holds that number's decimal notation.
pub proof fn lemma_read_text_holds_decimal(text: Seq<char>, number: u32)
    requires
        parse_u32(text) == Ok::<u32, IntErrorKind>(number),
    ensures
        occurs_in(text, decimal(number as nat)),
{
    let shift: int = if text[0] == '+' {
        1
    } else {
        0
    };
    let digits = text.skip(shift);
    assert(text.skip(0) =~= text);
    lemma_parse_digits_value(digits);
    lemma_decimal_ends_digits(digits);
    let written = decimal(number as nat);
    let at = digits.len() - written.len();
    assert(text.subrange(shift + at, shift + at + written.len()) =~= digits.subrange(
        at,
        at + written.len(),
    ));
    assert(occurs_at(text, written, shift + at));
}

/// Collects the characters of a string slice.
pub fn chars_of(s: &str) -> (v: Vec<char>)
    ensures
        v@ == s@,
{
    broadcast use vstd::string::axiom_spec_iter;

    let mut v: Vec<char> = Vec::new();
    for c in it: s.chars()
        invariant
            it.seq() == s@,
            v@ == it.seq().take(it.index()),
    {
        v.push(c);
    }
    v
}

/// The one-character text of the digit `d`.
fn digit_str(d: u64) -> (s: &'static str)
    requires
        d < 10,
    ensures
        s@ == seq![digit_char(d as nat)],
{
    proof {
        reveal_strlit("0");
        reveal_strlit("1");
        reveal_strlit("2");
        reveal_strlit("3");
        reveal_strlit("4");
        reveal_strlit("5");
        reveal_strlit("6");
        reveal_strlit("7");
        reveal_strlit("8");
        reveal_strlit("9");
    }
    let s = if d == 0 {
        "0"
    } else if d == 1 {
        "1"
    } else if d == 2 {
        "2"
    } else if d == 3 {
        "3"
    } else if d == 4 {
        "4"
    } else if d == 5 {
        "5"
    } else if d == 6 {
        "6"
    } else if d == 7 {
        "7"
    } else if d == 8 {
        "8"
    } else {
        "9"
    };
    assert(s@ =~= seq![digit_char(d as nat)]);
    s
}

/// Writes `n` in decimal.
pub fn to_decimal(n: u64) -> (s: String)
    ensures
        s@ == decimal(n as nat),
    decreases n,
{
    if n < 10 {
        digit_str(n).to_owned()
    } else {
        let mut s = to_decimal(n / 10);
        s.append(digit_str(n % 10));
        assert(s@ =~= decimal(n as nat));
        s
    }
}

/// Reads an unsigned 32-bit decimal number.
pub fn read_u32(text: &Vec<char>) -> (r: Result<u32, IntErrorKind>)
    ensures
        r == parse_u32(text@),
{
    if text.len() == 0 {
        return Err(IntErrorKind::Empty);
    }
    let start: usize = if text[0] == '+' {
        1
    } else {
        0
    };
    if start == text.len() {
        return Err(IntErrorKind::InvalidDigit);
    }
    let ghost digits = text@.skip(start as int);
    proof {
        assert(text@.skip(0) =~= text@);
        assert(digits.take(0) =~= Seq::<char>::empty());
        assert(parse_u32(text@) == read_as_u32(parse_digits(digits)));
    }
    let mut value: u32 = 0;
    let mut i: usize = start;
    while i < text.len()
        invariant
            start <= i <= text.len(),
            digits.len() == text.len() - start,
            forall|j: int| 0 <= j < digits.len() ==> digits[j] == text@[start + j],
            parse_digits(digits.take(i - start)) == Ok::<nat, IntErrorKind>(value as nat),
            parse_u32(text@) == read_as_u32(parse_digits(digits)),
        decreases text.len() - i,
    {
        let c = text[i];
        let code: u32 = c as u32;
        let ghost upto = digits.take(i - start + 1);
        proof {
            assert(upto.drop_last() =~= digits.take(i - start));
            assert(upto.last() == text@[i as int]);
            lemma_parse_digits_prefix_error(digits, i - start + 1);
        }
        if code < 48 || code > 57 {
            return Err(IntErrorKind::InvalidDigit);
        }
        let next = match value.checked_mul(10) {
            Some(tens) => tens.checked_add(code - 48),
            None => None,
        };
        match next {
            Some(sum) => {
                value = sum;
            },
            None => {
                return Err(IntErrorKind::PosOverflow);
            },
        }
        i = i + 1;
    }
    proof {
        assert(digits.take(i - start) =~= digits);
    }
    Ok(value)
}

/// Once a prefix of `s` fails to parse, all of `s` fails in the same way.
pub proof fn lemma_parse_digits_prefix_error(s: Seq<char>, n: int)
    requires
        0 <= n <= s.len(),
    ensures
        parse_digits(s.take(n)) is Err ==> parse_digits(s) == parse_digits(s.take(n)),
    decreases s.len() - n,
{
    if n < s.len() {
        lemma_parse_digits_prefix_error(s, n + 1);
        assert(s.take(n + 1).drop_last() =~= s.take(n));
    } else {
        assert(s.take(n) =~= s);
    }
}

} // verus!
