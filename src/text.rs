//! Decimal rendering and parsing of page indices carried by control identifiers.
use vstd::prelude::*;

verus! {

pub open spec fn digit_char(d: nat) -> char {
    if d == 0 { '0' }
    else if d == 1 { '1' }
    else if d == 2 { '2' }
    else if d == 3 { '3' }
    else if d == 4 { '4' }
    else if d == 5 { '5' }
    else if d == 6 { '6' }
    else if d == 7 { '7' }
    else if d == 8 { '8' }
    else { '9' }
}

/// The decimal digits of `n`, most significant first, without leading zeros.
pub open spec fn decimal(n: nat) -> Seq<char>
    decreases n,
{
    if n < 10 {
        seq![digit_char(n)]
    } else {
        decimal(n / 10).push(digit_char(n % 10))
    }
}

/// Decimal text of a possibly negative integer, with a leading `-` when negative.
pub open spec fn signed_decimal(i: int) -> Seq<char> {
    if i < 0 {
        seq!['-'] + decimal((-i) as nat)
    } else {
        decimal(i as nat)
    }
}

pub open spec fn is_digit(c: char) -> bool {
    '0' <= c && c <= '9'
}

pub open spec fn digit_value(c: char) -> nat {
    (c as int - '0' as int) as nat
}

/// The number that a run of decimal digits denotes.
pub open spec fn digits_value(s: Seq<char>) -> nat
    decreases s.len(),
{
    if s.len() == 0 {
        0
    } else {
        digits_value(s.drop_last()) * 10 + digit_value(s.last())
    }
}

pub open spec fn all_digits(s: Seq<char>) -> bool {
    s.len() > 0 && forall|i: int| 0 <= i < s.len() ==> is_digit(#[trigger] s[i])
}

pub open spec fn has_sign(s: Seq<char>) -> bool {
    s.len() > 0 && (s[0] == '+' || s[0] == '-')
}

pub open spec fn magnitude_part(s: Seq<char>) -> Seq<char> {
    if has_sign(s) { s.drop_first() } else { s }
}

/// An optional `+` or `-` followed by at least one decimal digit.
pub open spec fn is_integer_literal(s: Seq<char>) -> bool {
    all_digits(magnitude_part(s))
}

pub open spec fn integer_value(s: Seq<char>) -> int {
    if has_sign(s) && s[0] == '-' {
        -(digits_value(magnitude_part(s)) as int)
    } else {
        digits_value(magnitude_part(s)) as int
    }
}

/// Why a textual page index was not accepted.
#[derive(Clone, Copy, Debug, PartialEq, Eq, Structural)]
pub enum IndexError {
    /// The text is not an integer.
    NotANumber,
    /// The integer names no page.
    OutOfRange,
}

/// What `parse_index` returns for a text and a page count.
pub open spec fn parsed_index(s: Seq<char>, count: nat) -> Result<usize, IndexError> {
    if !is_integer_literal(s) {
        Err(IndexError::NotANumber)
    } else if 0 <= integer_value(s) < count {
        Ok(integer_value(s) as usize)
    } else {
        Err(IndexError::OutOfRange)
    }
}

fn digit_str(d: usize) -> (r: &'static str)
    requires
        d < 10,
    ensures
        r@ == seq![digit_char(d as nat)],
{
    proof {
        reveal_strlit("0");
        reveal_strlit("1");
        reveal_strlit("2");
        reveal_strlit("3");
        reveal_strlit("4");
        reveal_strlit("5");
        reveal_strlit("6");
        reveal_strlit("7");
        reveal_strlit("8");
        reveal_strlit("9");
    }
    let r = if d == 0 { "0" }
    else if d == 1 { "1" }
    else if d == 2 { "2" }
    else if d == 3 { "3" }
    else if d == 4 { "4" }
    else if d == 5 { "5" }
    else if d == 6 { "6" }
    else if d == 7 { "7" }
    else if d == 8 { "8" }
    else { "9" };
    assert(r@ =~= seq![digit_char(d as nat)]);
    r
}

/// Decimal text of `n`.
pub fn decimal_string(n: usize) -> (r: String)
    ensures
        r@ == decimal(n as nat),
    decreases n,
{
    if n < 10 {
        String::from_str(digit_str(n))
    } else {
        let mut s = decimal_string(n / 10);
        s.append(digit_str(n % 10));
        s
    }
}

proof fn lemma_digit_char_is_digit(d: nat)
    requires
        d < 10,
    ensures
        is_digit(digit_char(d)),
        digit_value(digit_char(d)) == d,
{
}

/// Reading back the decimal text of a number gives the number.
pub proof fn lemma_decimal_round_trip(n: nat)
    ensures
        all_digits(decimal(n)),
        digits_value(decimal(n)) == n,
    decreases n,
{
    if n < 10 {
        lemma_digit_char_is_digit(n);
        assert(decimal(n).drop_last() =~= Seq::<char>::empty());
        assert(decimal(n).last() == digit_char(n));
        assert(digits_value(decimal(n)) == digits_value(Seq::<char>::empty()) * 10 + n);
    } else {
        lemma_decimal_round_trip(n / 10);
        lemma_digit_char_is_digit(n % 10);
        let s = decimal(n);
        assert(s.drop_last() =~= decimal(n / 10));
        assert(s.last() == digit_char(n % 10));
        assert(n == (n / 10) * 10 + n % 10);
        assert(digits_value(s) == digits_value(decimal(n / 10)) * 10 + n % 10);
        assert forall|i: int| 0 <= i < s.len() implies is_digit(#[trigger] s[i]) by {
            if i < s.len() - 1 {
                assert(s[i] == decimal(n / 10)[i]);
            }
        }
    }
}

/// Parses a page index out of `s`, accepting it only when it names one of
/// `count` pages.
pub fn parse_index(s: &str, count: usize) -> (r: Result<usize, IndexError>)
    ensures
        r == parsed_index(s@, count as nat),
{
    let len = s.unicode_len();
    if len == 0 {
        return Err(IndexError::NotANumber);
    }
    let first = s.get_char(0);
    let signed = first == '+' || first == '-';
    let negative = first == '-';
    let start: usize = if signed { 1 } else { 0 };
    if start >= len {
        return Err(IndexError::NotANumber);
    }
    let ghost mag = magnitude_part(s@);
    assert(mag =~= s@.subrange(start as int, len as int));
    let mut acc: u128 = 0;
    let mut big = count == 0;
    let mut i = start;
    while i < len
        invariant
            start <= i <= len,
            len == s@.len(),
            start < len,
            mag == s@.subrange(start as int, len as int),
            mag == magnitude_part(s@),
            negative == (has_sign(s@) && s@[0] == '-'),
            forall|j: int| start <= j < i ==> is_digit(#[trigger] s@[j]),
            !big ==> acc == digits_value(mag.take(i - start)),
            !big ==> acc < count,
            big ==> digits_value(mag.take(i - start)) >= count,
        decreases len - i,
    {
        let c = s.get_char(i);
        if !('0' <= c && c <= '9') {
            assert(mag[i - start] == c);
            assert(!is_digit(mag[i - start]));
            assert(!all_digits(mag));
            assert(mag == magnitude_part(s@));
            return Err(IndexError::NotANumber);
        }
        let d = (c as u32 - '0' as u32) as u128;
        let ghost prev = mag.take(i - start);
        assert(mag.take(i + 1 - start).drop_last() =~= prev);
        assert(mag.take(i + 1 - start).last() == c);
        if !big {
            assert(acc * 10 + d < 0x1_0000_0000_0000_0000_0000 * 10) by (nonlinear_arith)
                requires acc < 0x1_0000_0000_0000_0000, d < 10;
            acc = acc * 10 + d;
            if acc >= count as u128 {
                big = true;
            }
        } else {
            assert(digits_value(prev) * 10 + d >= digits_value(prev)) by (nonlinear_arith);
        }
        i = i + 1;
    }
    assert(mag.take(len - start) =~= mag);
    assert(all_digits(mag)) by {
        assert forall|j: int| 0 <= j < mag.len() implies is_digit(#[trigger] mag[j]) by {
            assert(mag[j] == s@[j + start]);
        }
    }
    if big {
        Err(IndexError::OutOfRange)
    } else if negative && acc != 0 {
        Err(IndexError::OutOfRange)
    } else {
        Ok(acc as usize)
    }
}

/// The decimal text of a page index parses back to that index.
pub proof fn lemma_decimal_parses_back(k: usize, count: nat)
    requires
        k < count,
    ensures
        parsed_index(decimal(k as nat), count) == Ok::<usize, IndexError>(k),
{
    lemma_decimal_round_trip(k as nat);
    let d = decimal(k as nat);
    assert(is_digit(d[0]));
    assert(!has_sign(d));
    assert(magnitude_part(d) == d);
}

} // verus!
