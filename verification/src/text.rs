//! Text: decimal numbers, and cutting a text out of another.

use vstd::prelude::*;
use vstd::string::{StrSliceExecFns, StringExecFns};

verus! {

/// The decimal digit of `d`.
pub open spec fn digit(d: int) -> char {
    ('0' as int + d) as char
}

/// `n` in decimal digits, without leading zeros.
pub open spec fn decimal(n: nat) -> Seq<char>
    decreases n,
{
    if n < 10 {
        seq![digit(n as int)]
    } else {
        decimal(n / 10).push(digit((n % 10) as int))
    }
}

/// The text of one decimal digit.
fn digit_text(d: u64) -> (res: &'static str)
    requires
        d < 10,
    ensures
        res@ == seq![digit(d as int)],
{
    proof {
        reveal_strlit("0");
        reveal_strlit("1");
        reveal_strlit("2");
        reveal_strlit("3");
        reveal_strlit("4");
        reveal_strlit("5");
        reveal_strlit("6");
        reveal_strlit("7");
        reveal_strlit("8");
        reveal_strlit("9");
    }
    if d == 0 {
        "0"
    } else if d == 1 {
        "1"
    } else if d == 2 {
        "2"
    } else if d == 3 {
        "3"
    } else if d == 4 {
        "4"
    } else if d == 5 {
        "5"
    } else if d == 6 {
        "6"
    } else if d == 7 {
        "7"
    } else if d == 8 {
        "8"
    } else {
        "9"
    }
}

/// Writes `n` in decimal at the end of `out`.
pub fn append_decimal(out: &mut String, n: u64)
    ensures
        final(out)@ == old(out)@ + decimal(n as nat),
    decreases n,
{
    if n >= 10 {
        append_decimal(out, n / 10);
    }
    out.append(digit_text(n % 10));
}

/// `text` with every occurrence of `cut` left out, read from the left and without overlaps.
pub open spec fn without(text: Seq<char>, cut: Seq<char>) -> Seq<char>
    decreases text.len(),
{
    if cut.len() == 0 || text.len() < cut.len() {
        text
    } else if text.take(cut.len() as int) == cut {
        without(text.skip(cut.len() as int), cut)
    } else {
        seq![text[0]] + without(text.skip(1), cut)
    }
}

/// `cut` occurs in `text` at `i`.
pub open spec fn occurs_at(text: Seq<char>, cut: Seq<char>, i: int) -> bool {
    &&& 0 <= i
    &&& i + cut.len() <= text.len()
    &&& text.subrange(i, i + cut.len()) == cut
}

/// Whether `cut`, of `m` characters, stands in `text` from character `i` on.
fn stands_at(text: &str, cut: &str, m: usize, i: usize) -> (res: bool)
    requires
        m == cut@.len(),
        i + m <= text@.len() <= usize::MAX,
    ensures
        res == occurs_at(text@, cut@, i as int),
{
    let mut k: usize = 0;
    while k < m
        invariant
            m == cut@.len(),
            i + m <= text@.len() <= usize::MAX,
            k <= m,
            forall|l: int| 0 <= l < k ==> text@[i + l] == #[trigger] cut@[l],
        decreases m - k,
    {
        if text.get_char(i + k) != cut.get_char(k) {
            assert(text@.subrange(i as int, i + m)[k as int] != cut@[k as int]);
            return false;
        }
        k += 1;
    }
    assert(text@.subrange(i as int, i + m) == cut@);
    true
}

/// `text` with every occurrence of `cut` left out.
pub fn remove_all(text: &str, cut: &str) -> (res: String)
    ensures
        res@ == without(text@, cut@),
{
    let n: usize = text.unicode_len();
    let m: usize = cut.unicode_len();
    if m == 0 {
        return text.to_owned();
    }
    let mut out = String::new();
    let mut kept: usize = 0;
    let mut i: usize = 0;
    assert(text@.skip(0) == text@);
    while i < n && m <= n - i
        invariant
            n == text@.len(),
            0 < m == cut@.len(),
            kept <= i <= n,
            without(text@, cut@) == out@ + text@.subrange(kept as int, i as int) + without(
                text@.skip(i as int),
                cut@,
            ),
        decreases n - i,
    {
        let ghost rest = text@.skip(i as int);
        assert(rest.take(m as int) == text@.subrange(i as int, i + m));
        if stands_at(text, cut, m, i) {
            assert(rest.skip(m as int) == text@.skip(i + m));
            out.append(text.substring_char(kept, i));
            i = i + m;
            kept = i;
            assert(text@.subrange(kept as int, i as int) == Seq::<char>::empty());
        } else {
            assert(rest.skip(1) == text@.skip(i + 1));
            assert(text@.subrange(kept as int, i + 1) == text@.subrange(kept as int, i as int) + seq![
                text@[i as int],
            ]);
            assert(without(rest, cut@) == seq![rest[0]] + without(rest.skip(1), cut@));
            i = i + 1;
        }
    }
    assert(without(text@.skip(i as int), cut@) == text@.skip(i as int));
    assert(text@.subrange(kept as int, n as int) == text@.subrange(kept as int, i as int) + text@.skip(
        i as int,
    ));
    out.append(text.substring_char(kept, n));
    out
}

/// A text in which `cut` does not occur is left as it is.
pub proof fn lemma_without_absent(text: Seq<char>, cut: Seq<char>)
    requires
        forall|i: int| !occurs_at(text, cut, i),
    ensures
        without(text, cut) == text,
    decreases text.len(),
{
    if cut.len() > 0 && text.len() >= cut.len() {
        assert(text.take(cut.len() as int) == text.subrange(0, cut.len() as int));
        assert(!occurs_at(text, cut, 0));
        assert forall|i: int| !occurs_at(text.skip(1), cut, i) by {
            if occurs_at(text.skip(1), cut, i) {
                assert(text.skip(1).subrange(i, i + cut.len()) == text.subrange(i + 1, i + 1 + cut.len()));
                assert(occurs_at(text, cut, i + 1));
            }
        }
        lemma_without_absent(text.skip(1), cut);
        assert(seq![text[0]] + text.skip(1) == text);
    }
}

/// A digit more at the end of a number that is not zero is a digit more at the end of its text.
pub proof fn law_decimal_appends_digits(n: nat, d: nat)
    requires
        d < 10,
    ensures
        decimal(d).len() == 1,
        decimal(d)[0] as int == 48 + d,
        n > 0 ==> decimal(n * 10 + d).len() == decimal(n).len() + 1,
        n > 0 ==> decimal(n * 10 + d).drop_last() == decimal(n),
        n > 0 ==> decimal(n * 10 + d).last() as int == 48 + d,
{
    if n > 0 {
        let m = n * 10 + d;
        assert(m / 10 == n && m % 10 == d);
        assert(decimal(m).drop_last() =~= decimal(n));
    }
}

/// Different numbers have different texts, which consist of decimal digits, and of no zero in front
/// but for zero itself.
pub proof fn law_decimal_is_read_back(a: nat, b: nat)
    ensures
        decimal(a).len() > 0,
        forall|i: int| 0 <= i < decimal(a).len() ==> '0' <= #[trigger] decimal(a)[i] <= '9',
        a > 0 ==> decimal(a)[0] != '0',
        decimal(a) == decimal(b) ==> a == b,
    decreases a + b,
{
    if a >= 10 {
        law_decimal_is_read_back(a / 10, b / 10);
        assert forall|i: int| 0 <= i < decimal(a).len() implies '0' <= #[trigger] decimal(a)[i] <= '9' by {
            if i < decimal(a / 10).len() {
                assert(decimal(a)[i] == decimal(a / 10)[i]);
            }
        }
        assert(decimal(a)[0] == decimal(a / 10)[0]);
        if decimal(a) == decimal(b) {
            assert(decimal(a).drop_last() =~= decimal(a / 10));
            assert(decimal(a).len() > 1);
            assert(b >= 10);
            assert(decimal(b).drop_last() =~= decimal(b / 10));
            assert(digit((a % 10) as int) == decimal(a).last());
            assert(digit((b % 10) as int) == decimal(b).last());
        }
    } else {
        if b >= 10 {
            law_decimal_is_read_back(b / 10, 0);
            assert(decimal(b).len() > 1);
        } else {
            assert(decimal(a)[0] == digit(a as int));
            assert(decimal(b)[0] == digit(b as int));
        }
    }
}

/// Cutting out leaves what stands before the first occurrence, leaves the occurrence out, and goes on
/// behind it. Where there is none, it leaves everything.
pub proof fn law_occurrences_are_cut_from_the_left(text: Seq<char>, cut: Seq<char>, i: int)
    requires
        cut.len() > 0,
        0 <= i,
        i + cut.len() <= text.len(),
        text.subrange(i, i + cut.len()) == cut,
        forall|j: int| 0 <= j < i ==> #[trigger] text.subrange(j, j + cut.len()) != cut,
    ensures
        without(text, cut) == text.take(i) + without(text.skip(i + cut.len()), cut),
    decreases i,
{
    let m = cut.len() as int;
    assert(text.take(m) =~= text.subrange(0, m));
    if i == 0 {
        assert(text.take(0) + without(text.skip(m), cut) =~= without(text.skip(m), cut));
    } else {
        assert(text.subrange(0, 0int + cut.len()) != cut);
        let rest = text.skip(1);
        assert(rest.subrange(i - 1, i - 1 + m) =~= text.subrange(i, i + m));
        assert forall|j: int| 0 <= j < i - 1 implies #[trigger] rest.subrange(j, j + cut.len()) != cut by {
            assert(rest.subrange(j, j + m) =~= text.subrange(j + 1, j + 1 + cut.len()));
        }
        law_occurrences_are_cut_from_the_left(rest, cut, i - 1);
        assert(rest.skip(i - 1 + m) =~= text.skip(i + m));
        assert(seq![text[0]] + rest.take(i - 1) =~= text.take(i));
        assert(without(text, cut) =~= text.take(i) + without(text.skip(i + m), cut));
    }
}

/// A text in which `cut` stands nowhere is left as it is, and so is every text if `cut` is empty.
pub proof fn law_nothing_else_is_cut(text: Seq<char>, cut: Seq<char>)
    requires
        cut.len() == 0 || forall|j: int|
            0 <= j && j + cut.len() <= text.len() ==> #[trigger] text.subrange(j, j + cut.len()) != cut,
    ensures
        without(text, cut) == text,
{
    if cut.len() > 0 {
        assert forall|i: int| !occurs_at(text, cut, i) by {
            if occurs_at(text, cut, i) {
                assert(text.subrange(i, i + cut.len()) == cut);
            }
        }
        lemma_without_absent(text, cut);
    }
}

} // verus!
