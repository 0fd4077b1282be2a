//! How long a response says it is.

use vstd::prelude::*;

verus! {

/// `b` is a decimal digit.
pub open spec fn is_digit(b: u8) -> bool {
    48 <= b <= 57
}

/// The number that the decimal digits `digits` write.
pub open spec fn number(digits: Seq<u8>) -> nat
    decreases digits.len(),
{
    if digits.len() == 0 {
        0
    } else {
        number(digits.drop_last()) * 10 + (digits.last() - 48) as nat
    }
}

/// `text` without the plus sign that it may start with.
pub open spec fn unsigned_part(text: Seq<u8>) -> Seq<u8> {
    if text.len() > 0 && text[0] == 43 {
        text.skip(1)
    } else {
        text
    }
}

/// The number that `text` writes: digits, of which there must be some, after a plus sign or none.
/// A number that `usize` cannot hold is none.
pub open spec fn written_number(text: Seq<u8>) -> Option<usize> {
    let digits = unsigned_part(text);
    if digits.len() > 0 && (forall|i: int| 0 <= i < digits.len() ==> is_digit(#[trigger] digits[i]))
        && number(digits) <= usize::MAX {
        Some(number(digits) as usize)
    } else {
        None
    }
}

/// The length that a `Content-Length` header announces: one that is missing or unreadable announces
/// the longest body of all.
pub open spec fn announced(header: Option<Seq<u8>>) -> usize {
    match header {
        Some(text) => match written_number(text) {
            Some(n) => n,
            None => usize::MAX,
        },
        None => usize::MAX,
    }
}

/// More digits write no smaller number.
proof fn lemma_number_grows(digits: Seq<u8>, k: int)
    requires
        0 <= k <= digits.len(),
    ensures
        number(digits.take(k)) <= number(digits),
    decreases digits.len(),
{
    if k == digits.len() {
        assert(digits.take(k) == digits);
    } else {
        lemma_number_grows(digits.drop_last(), k);
        assert(digits.drop_last().take(k) == digits.take(k));
    }
}

/// The number that `text` writes, if it writes one.
pub fn read_number(text: &[u8]) -> (res: Option<usize>)
    ensures
        res == written_number(text@),
{
    let n: usize = text.len();
    let start: usize = if n > 0 && text[0] == 43 {
        1
    } else {
        0
    };
    let ghost digits = unsigned_part(text@);
    assert(digits == text@.skip(start as int));
    if start == n {
        return None;
    }
    let mut value: usize = 0;
    let mut i: usize = start;
    while i < n
        invariant
            n == text@.len(),
            start <= i <= n,
            start < n,
            digits == unsigned_part(text@),
            digits == text@.skip(start as int),
            value == number(digits.take(i - start)),
            forall|k: int| 0 <= k < i - start ==> is_digit(#[trigger] digits[k]),
        decreases n - i,
    {
        let b: u8 = text[i];
        let ghost k = i - start;
        assert(digits[k] == b);
        if b < 48 || b > 57 {
            return None;
        }
        let d: usize = (b - 48) as usize;
        assert(digits.take(k + 1).drop_last() == digits.take(k));
        assert(number(digits.take(k + 1)) == value * 10 + d);
        proof {
            lemma_number_grows(digits, k + 1);
        }
        value = match value.checked_mul(10) {
            Some(tens) => match tens.checked_add(d) {
                Some(sum) => sum,
                None => {
                    return None;
                },
            },
            None => {
                return None;
            },
        };
        i += 1;
    }
    assert(digits.take(i - start) == digits);
    Some(value)
}

/// The length that a `Content-Length` header announces.
pub fn announced_length(header: &Option<Vec<u8>>) -> (res: usize)
    ensures
        res == announced(
            match *header {
                Some(text) => Some(text@),
                None => None,
            },
        ),
{
    match header {
        Some(text) => match read_number(text.as_slice()) {
            Some(n) => n,
            None => usize::MAX,
        },
        None => usize::MAX,
    }
}

/// One decimal digit writes itself.
pub proof fn law_one_digit_is_read(d: u8)
    requires
        d < 10,
    ensures
        written_number(seq![(48 + d) as u8]) == Some(d as usize),
{
    let text = seq![(48 + d) as u8];
    assert(text.drop_last() == Seq::<u8>::empty());
    reveal_with_fuel(number, 2);
    assert(number(text) == d as nat);
}

/// A digit more writes ten times the number and the digit, if the result can be held.
pub proof fn law_one_more_digit_is_read(text: Seq<u8>, n: usize, d: u8)
    requires
        written_number(text) == Some(n),
        d < 10,
    ensures
        written_number(text.push((48 + d) as u8)) == if n * 10 + d <= usize::MAX {
            Some((n * 10 + d) as usize)
        } else {
            None
        },
{
    let digits = unsigned_part(text);
    let more = unsigned_part(text.push((48 + d) as u8));
    assert(more == digits.push((48 + d) as u8));
    assert(more.drop_last() == digits);
    assert(number(more) == n * 10 + d);
    assert forall|i: int| 0 <= i < more.len() implies is_digit(#[trigger] more[i]) by {
        if i < digits.len() {
            assert(more[i] == digits[i]);
        }
    }
}

/// A number that is too large stays too large with digits more.
pub proof fn law_too_large_stays_too_large(text: Seq<u8>, d: u8)
    requires
        text.len() > 0,
        forall|i: int| 0 <= i < text.len() ==> 48 <= #[trigger] text[i] <= 57,
        written_number(text) is None,
        d < 10,
    ensures
        written_number(text.push((48 + d) as u8)) is None,
{
    let more = text.push((48 + d) as u8);
    assert(forall|i: int| 0 <= i < text.len() ==> is_digit(#[trigger] text[i]));
    assert(more.drop_last() == text);
    assert(number(more) >= number(text));
}

/// A plus sign in front of digits changes nothing.
pub proof fn law_plus_sign_is_skipped(text: Seq<u8>)
    requires
        text.len() == 0 || text[0] != 43,
    ensures
        written_number(seq![43u8] + text) == written_number(text),
{
    assert((seq![43u8] + text).skip(1) == text);
}

/// What holds no digit, or something else than digits after a plus sign, writes no number.
pub proof fn law_other_text_writes_no_number(text: Seq<u8>, i: int)
    requires
        text.len() == 0 || (0 <= i < text.len() && !(48 <= text[i] <= 57) && (i > 0 || text[i] != 43)),
    ensures
        written_number(text) is None,
{
    if text.len() > 0 {
        let digits = unsigned_part(text);
        if text[0] == 43 {
            assert(digits[i - 1] == text[i]);
            assert(!is_digit(digits[i - 1]));
        } else {
            assert(!is_digit(digits[i]));
        }
    }
}

/// A response announces the number that its header writes, and else the longest body of all.
pub proof fn law_length_is_what_the_header_writes(text: Seq<u8>)
    ensures
        announced(None) == usize::MAX,
        written_number(text) matches Some(n) ==> announced(Some(text)) == n,
        written_number(text) is None ==> announced(Some(text)) == usize::MAX,
{
}

} // verus!
