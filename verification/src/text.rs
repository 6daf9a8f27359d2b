//! Writing values as text.
use vstd::prelude::*;

verus! {

/// The text of the decimal digit `d`.
pub open spec fn digit_text(d: nat) -> Seq<char> {
    if d == 0 {
        "0"@
    } else if d == 1 {
        "1"@
    } else if d == 2 {
        "2"@
    } else if d == 3 {
        "3"@
    } else if d == 4 {
        "4"@
    } else if d == 5 {
        "5"@
    } else if d == 6 {
        "6"@
    } else if d == 7 {
        "7"@
    } else if d == 8 {
        "8"@
    } else {
        "9"@
    }
}

/// The decimal digits of `n`, most significant first.
pub open spec fn decimal(n: nat) -> Seq<char>
    decreases n,
{
    if n < 10 {
        digit_text(n)
    } else {
        decimal(n / 10) + digit_text(n % 10)
    }
}

/// Whether `c` is one of the characters `0` to `9`.
pub open spec fn is_digit(c: char) -> bool {
    48 <= (c as int) <= 57
}

/// The number that the decimal numeral `t` writes.
pub open spec fn numeral_value(t: Seq<char>) -> int
    decreases t.len(),
{
    if t.len() == 0 {
        0
    } else {
        numeral_value(t.drop_last()) * 10 + ((t.last() as int) - 48)
    }
}

proof fn lemma_digit_text(d: nat)
    requires
        d < 10,
    ensures
        digit_text(d).len() == 1,
        (digit_text(d)[0] as int) == 48 + d,
{
    reveal_strlit("0");
    reveal_strlit("1");
    reveal_strlit("2");
    reveal_strlit("3");
    reveal_strlit("4");
    reveal_strlit("5");
    reveal_strlit("6");
    reveal_strlit("7");
    reveal_strlit("8");
    reveal_strlit("9");
}

/// `decimal(n)` is the base-10 numeral of `n`: it is made of the digits
/// `0` to `9`, reads back as `n`, and starts with `0` only for `n == 0`.
pub proof fn lemma_decimal_numeral(n: nat)
    ensures
        decimal(n).len() >= 1,
        forall|i: int| 0 <= i < decimal(n).len() ==> is_digit(#[trigger] decimal(n)[i]),
        numeral_value(decimal(n)) == n,
        (decimal(n)[0] as int) == 48 ==> n == 0,
    decreases n,
{
    lemma_digit_text(n % 10);
    if n < 10 {
        let t = decimal(n);
        assert(t.drop_last() =~= Seq::<char>::empty());
        assert(numeral_value(t.drop_last()) == 0);
        assert(t.last() == t[0]);
        assert(numeral_value(t) == numeral_value(t.drop_last()) * 10 + ((t.last() as int) - 48));
    } else {
        lemma_decimal_numeral(n / 10);
        let hi = decimal(n / 10);
        let lo = digit_text(n % 10);
        let t = decimal(n);
        assert(t == hi + lo);
        assert(t.drop_last() =~= hi);
        assert(t.last() == lo[0]);
        assert(t[0] == hi[0]);
        assert forall|i: int| 0 <= i < t.len() implies is_digit(#[trigger] t[i]) by {
            if i < hi.len() {
                assert(t[i] == hi[i]);
            } else {
                assert(t[i] == lo[0]);
            }
        }
        assert(numeral_value(t) == numeral_value(hi) * 10 + ((lo[0] as int) - 48));
        assert((n / 10) * 10 + n % 10 == n);
    }
}

/// What the text of a coroutine at some address begins with.
pub open spec fn coroutine_prefix() -> Seq<char> {
    "<coroutine "@
}

/// Whether `s` is the text of a coroutine at some address.
pub open spec fn is_coroutine_at(s: Seq<char>) -> bool {
    exists|addr: Seq<char>| s == #[trigger] (coroutine_prefix() + addr + ">"@)
}

/// The text that std's `Debug` writes for the string `s`: the string in
/// double quotes, with its special characters escaped.
pub uninterp spec fn debug_text(s: Seq<char>) -> Seq<char>;

/// `format!("<coroutine {:p}>", r)`: the address of `r` as std's pointer
/// formatting writes it, between `<coroutine ` and `>`. The address is
/// the machine's, so nothing more is said of it.
#[verifier::external_body]
pub(crate) fn coroutine_at<T>(r: &T) -> (s: String)
    ensures
        is_coroutine_at(s@),
{
    format!("<coroutine {:p}>", r)
}

/// `format!("{:?}", s)`: std's `Debug` text of the string `s`.
#[verifier::external_body]
pub(crate) fn debug_string(s: &String) -> (t: String)
    ensures
        t@ == debug_text(s@),
{
    format!("{:?}", s)
}

/// Appends the text of the decimal digit `d` to `s`.
fn push_digit(s: &mut String, d: usize)
    requires
        d < 10,
    ensures
        final(s)@ == old(s)@ + digit_text(d as nat),
{
    if d == 0 {
        s.append("0");
    } else if d == 1 {
        s.append("1");
    } else if d == 2 {
        s.append("2");
    } else if d == 3 {
        s.append("3");
    } else if d == 4 {
        s.append("4");
    } else if d == 5 {
        s.append("5");
    } else if d == 6 {
        s.append("6");
    } else if d == 7 {
        s.append("7");
    } else if d == 8 {
        s.append("8");
    } else {
        s.append("9");
    }
}

/// Appends the decimal digits of `n` to `s`.
pub(crate) fn push_decimal(s: &mut String, n: usize)
    ensures
        final(s)@ == old(s)@ + decimal(n as nat),
    decreases n,
{
    if n >= 10 {
        push_decimal(s, n / 10);
    }
    push_digit(s, n % 10);
    assert(final(s)@ =~= old(s)@ + decimal(n as nat));
}

/// The decimal digits of `n`.
pub(crate) fn decimal_text(n: usize) -> (s: String)
    ensures
        s@ == decimal(n as nat),
{
    let mut s = String::new();
    push_decimal(&mut s, n);
    assert(s@ =~= decimal(n as nat));
    s
}

} // verus!
