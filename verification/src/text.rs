//! Small text building blocks: decimal rendering and prefix tests.

use vstd::prelude::*;

verus! {

/// The character of a decimal digit `d` (for `0 <= d < 10`).
pub open spec fn digit_char(d: int) -> char {
    (('0' as int) + d) as char
}

/// The decimal rendering of `n`, without sign or leading zeros (`0` renders as `"0"`).
pub open spec fn decimal(n: nat) -> Seq<char>
    decreases n,
{
    if n < 10 {
        seq![digit_char(n as int)]
    } else {
        decimal(n / 10).push(digit_char((n % 10) as int))
    }
}

fn digit_str(d: u64) -> (s: &'static str)
    requires
        d < 10,
    ensures
        s@ == seq![digit_char(d as int)],
{
    proof {
        reveal_strlit("0");
        reveal_strlit("1");
        reveal_strlit("2");
        reveal_strlit("3");
        reveal_strlit("4");
        reveal_strlit("5");
        reveal_strlit("6");
        reveal_strlit("7");
        reveal_strlit("8");
        reveal_strlit("9");
    }
    match d {
        0 => "0",
        1 => "1",
        2 => "2",
        3 => "3",
        4 => "4",
        5 => "5",
        6 => "6",
        7 => "7",
        8 => "8",
        _ => "9",
    }
}

/// The digits of `d` (least significant first) as characters, most significant first.
pub open spec fn digits_text(d: Seq<u64>) -> Seq<char> {
    Seq::new(d.len(), |k: int| digit_char(d[d.len() - 1 - k] as int))
}

/// Renders `n` in decimal, as `format!("{}", n)` does.
pub fn u64_to_decimal(n: u64) -> (s: String)
    ensures
        s@ == decimal(n as nat),
{
    // digits[k] is the k-th digit counted from the least significant one
    let mut digits: Vec<u64> = Vec::new();
    let mut rest: u64 = n;
    while rest >= 10
        invariant
            forall|k: int| 0 <= k < digits.len() ==> digits[k] < 10,
            decimal(n as nat) == decimal(rest as nat) + digits_text(digits@),
        decreases rest,
    {
        let ghost before = digits@;
        let ghost old_rest = rest;
        digits.push(rest % 10);
        rest = rest / 10;
        assert(digits_text(digits@) =~= seq![digit_char((old_rest % 10) as int)] + digits_text(
            before,
        ));
        assert(decimal(old_rest as nat) == decimal(rest as nat).push(
            digit_char((old_rest % 10) as int),
        ));
        assert(decimal(rest as nat) + digits_text(digits@) =~= decimal(rest as nat).push(
            digit_char((old_rest % 10) as int),
        ) + digits_text(before));
    }
    let ghost before = digits@;
    digits.push(rest);
    assert(digits_text(digits@) =~= seq![digit_char(rest as int)] + digits_text(before));
    assert(decimal(n as nat) == digits_text(digits@));
    let mut s = String::new();
    let mut i = digits.len();
    while i > 0
        invariant
            i <= digits.len(),
            forall|k: int| 0 <= k < digits.len() ==> digits[k] < 10,
            s@ == digits_text(digits@).subrange(0, digits.len() - i),
        decreases i,
    {
        i = i - 1;
        s.append(digit_str(digits[i]));
        assert(s@ =~= digits_text(digits@).subrange(0, digits.len() - i));
    }
    assert(s@ =~= digits_text(digits@));
    s
}

/// The texts of a sequence of `String`s.
pub open spec fn texts(s: Seq<String>) -> Seq<Seq<char>> {
    s.map_values(|t: String| t@)
}

/// `text` begins with `prefix`.
pub open spec fn has_prefix(text: Seq<char>, prefix: Seq<char>) -> bool {
    prefix.len() <= text.len() && text.subrange(0, prefix.len() as int) == prefix
}

/// The characters of `s`, in order.
pub fn chars_of(s: &str) -> (r: Vec<char>)
    ensures
        r@ == s@,
{
    let mut r: Vec<char> = Vec::new();
    for c in it: s.chars()
        invariant
            r@ == it.seq().take(it.index() as int),
    {
        r.push(c);
    }
    r
}

/// Whether `text` begins with `prefix`, as `str::starts_with` answers.
pub fn starts_with(text: &str, prefix: &str) -> (r: bool)
    ensures
        r == has_prefix(text@, prefix@),
{
    let t = chars_of(text);
    let p = chars_of(prefix);
    if p.len() > t.len() {
        return false;
    }
    let mut i: usize = 0;
    while i < p.len()
        invariant
            p@ == prefix@,
            t@ == text@,
            p.len() <= t.len(),
            i <= p.len(),
            forall|k: int| 0 <= k < i ==> t@[k] == p@[k],
        decreases p.len() - i,
    {
        if t[i] != p[i] {
            assert(text@.subrange(0, prefix@.len() as int)[i as int] != prefix@[i as int]);
            return false;
        }
        i = i + 1;
    }
    assert(text@.subrange(0, prefix@.len() as int) =~= prefix@);
    true
}

/// The number that a text of decimal digits spells.
pub open spec fn digits_value(s: Seq<char>) -> int
    decreases s.len(),
{
    if s.len() == 0 {
        0
    } else {
        digits_value(s.drop_last()) * 10 + (s.last() as int - '0' as int)
    }
}

/// The decimal rendering of `n` is made of digits, spells `n`, and begins
/// with a zero only when it is `0` itself.
pub proof fn lemma_decimal_spells(n: nat)
    ensures
        decimal(n).len() > 0,
        forall|i: int| 0 <= i < decimal(n).len() ==> '0' <= #[trigger] decimal(n)[i] <= '9',
        digits_value(decimal(n)) == n,
        decimal(n)[0] == '0' ==> n == 0,
    decreases n,
{
    let last = (n % 10) as int;
    assert(digit_char(last) as int == '0' as int + last);
    if n < 10 {
        assert(decimal(n).drop_last() =~= Seq::<char>::empty());
        assert(digits_value(decimal(n)) == digits_value(Seq::<char>::empty()) * 10 + (
        digit_char(n as int) as int - '0' as int));
    } else {
        lemma_decimal_spells(n / 10);
        let d = decimal(n);
        let p = decimal(n / 10);
        assert(d.drop_last() =~= p);
        assert(digits_value(d) == digits_value(p) * 10 + (digit_char(last) as int - '0' as int));
        assert(n == (n / 10) * 10 + last);
        assert(d[0] == p[0]);
        assert forall|i: int| 0 <= i < d.len() implies '0' <= #[trigger] d[i] <= '9' by {
            if i < p.len() {
                assert(d[i] == p[i]);
            }
        }
    }
}

} // verus!
