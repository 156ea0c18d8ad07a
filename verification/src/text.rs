//! Decimal and hexadecimal renderings of integers, as `format!` writes them.

use vstd::prelude::*;

verus! {

/// The character that stands for the digit `d` (below 16), lower case.
pub open spec fn digit_char(d: nat) -> char {
    if d < 10 {
        (48 + d) as char
    } else {
        (87 + d) as char
    }
}

/// The digits of `n` in base `base`, most significant first; zero has the single digit `0`.
pub open spec fn digits(n: nat, base: nat) -> Seq<char>
    recommends
        base >= 2,
    decreases n,
{
    if n < base || base < 2 {
        seq![digit_char(n)]
    } else {
        proof {
            assert(n / base < n) by (nonlinear_arith)
                requires
                    base >= 2,
                    n >= base,
            ;
        }
        digits(n / base, base).push(digit_char(n % base))
    }
}

/// `n` in decimal, as `{}` renders an unsigned integer.
pub open spec fn decimal(n: nat) -> Seq<char> {
    digits(n, 10)
}

/// `n` in decimal with a leading `-` when negative, as `{}` or `{:?}` renders a signed integer.
pub open spec fn signed_decimal(n: int) -> Seq<char> {
    if n < 0 {
        seq!['-'] + decimal((-n) as nat)
    } else {
        decimal(n as nat)
    }
}

/// `n` as `{:p}` renders an address: `0x` and lower-case hexadecimal digits.
pub open spec fn address(n: nat) -> Seq<char> {
    seq!['0', 'x'] + digits(n, 16)
}

fn digit_str(d: u8) -> (s: &'static str)
    requires
        d < 16,
    ensures
        s@ == seq![digit_char(d as nat)],
{
    proof {
        reveal_strlit("0");
        reveal_strlit("1");
        reveal_strlit("2");
        reveal_strlit("3");
        reveal_strlit("4");
        reveal_strlit("5");
        reveal_strlit("6");
        reveal_strlit("7");
        reveal_strlit("8");
        reveal_strlit("9");
        reveal_strlit("a");
        reveal_strlit("b");
        reveal_strlit("c");
        reveal_strlit("d");
        reveal_strlit("e");
        reveal_strlit("f");
    }
    match d {
        0 => "0",
        1 => "1",
        2 => "2",
        3 => "3",
        4 => "4",
        5 => "5",
        6 => "6",
        7 => "7",
        8 => "8",
        9 => "9",
        10 => "a",
        11 => "b",
        12 => "c",
        13 => "d",
        14 => "e",
        _ => "f",
    }
}

/// Appends the digits of `n` in base `base` to `s`.
fn push_digits(s: &mut String, n: u128, base: u128)
    requires
        2 <= base <= 16,
    ensures
        final(s)@ == old(s)@ + digits(n as nat, base as nat),
    decreases n,
{
    if n < base {
        s.append(digit_str(n as u8));
    } else {
        assert(n / base < n) by (nonlinear_arith)
            requires
                base >= 2,
                n >= base,
        ;
        push_digits(s, n / base, base);
        s.append(digit_str((n % base) as u8));
    }
}

/// Appends `n` in decimal to `s`.
pub fn push_decimal(s: &mut String, n: u128)
    ensures
        final(s)@ == old(s)@ + decimal(n as nat),
{
    push_digits(s, n, 10);
}

/// Appends `n` in decimal to `s`, with a leading `-` when it is negative.
pub fn push_signed_decimal(s: &mut String, n: i128)
    requires
        n > i128::MIN,
    ensures
        final(s)@ == old(s)@ + signed_decimal(n as int),
{
    if n < 0 {
        proof {
            reveal_strlit("-");
        }
        s.append("-");
        push_digits(s, (-n) as u128, 10);
    } else {
        push_digits(s, n as u128, 10);
    }
}

/// Appends `n` to `s` as `{:p}` renders an address.
pub fn push_address(s: &mut String, n: u128)
    ensures
        final(s)@ == old(s)@ + address(n as nat),
{
    proof {
        reveal_strlit("0x");
    }
    s.append("0x");
    push_digits(s, n, 16);
}

/// The value of the digit character `c` (`0`-`9`, `a`-`f`).
pub open spec fn digit_value(c: char) -> int {
    if '0' <= c && c <= '9' {
        c as int - 48
    } else {
        c as int - 87
    }
}

/// Whether `c` is a digit in base `base` (at most 16), lower case.
pub open spec fn is_digit(c: char, base: nat) -> bool {
    (('0' <= c && c <= '9') || ('a' <= c && c <= 'f')) && 0 <= digit_value(c) < base
}

/// The number that the digits `s` write in base `base`, most significant first.
pub open spec fn digits_value(s: Seq<char>, base: nat) -> int
    decreases s.len(),
{
    if s.len() == 0 {
        0
    } else {
        digits_value(s.drop_last(), base) * base + digit_value(s.last())
    }
}

proof fn lemma_digit_char(d: nat, base: nat)
    requires
        d < base <= 16,
    ensures
        digit_value(digit_char(d)) == d,
        is_digit(digit_char(d), base),
{
    if d < 10 {
        assert(((48 + d) as char) as int == 48 + d);
    } else {
        assert(((87 + d) as char) as int == 87 + d);
    }
}

/// Reading back the digits of `n` gives `n`: every character is a digit of the
/// base, there is at least one, and their value is `n`.
pub proof fn lemma_digits_read_back(n: nat, base: nat)
    requires
        2 <= base <= 16,
    ensures
        digits(n, base).len() >= 1,
        forall|i: int| 0 <= i < digits(n, base).len() ==> is_digit(#[trigger] digits(n, base)[i], base),
        digits_value(digits(n, base), base) == n,
    decreases n,
{
    if n < base {
        lemma_digit_char(n, base);
        assert(digits(n, base) == seq![digit_char(n)]);
        assert(seq![digit_char(n)].drop_last() =~= Seq::<char>::empty());
        assert(digits_value(digits(n, base), base) == digits_value(Seq::<char>::empty(), base) * base + digit_value(
            digit_char(n),
        ));
    } else {
        assert(n / base < n) by (nonlinear_arith)
            requires
                base >= 2,
                n >= base,
        ;
        lemma_digits_read_back(n / base, base);
        let d = digits(n, base);
        assert(d.drop_last() == digits(n / base, base));
        assert(n % base < base);
        lemma_digit_char(n % base, base);
        assert forall|i: int| 0 <= i < d.len() implies is_digit(#[trigger] d[i], base) by {
            if i < d.len() - 1 {
                assert(d[i] == digits(n / base, base)[i]);
            }
        }
        assert((n / base) * base + n % base == n) by (nonlinear_arith)
            requires
                base >= 2,
        ;
        assert(d.last() == digit_char(n % base));
        assert(digits_value(d, base) == digits_value(d.drop_last(), base) * base + digit_value(d.last()));
    }
}

/// Whether `s` writes `n` as `{:p}` writes an address: `0x` and at least one
/// lower-case hexadecimal digit, whose value is `n`.
pub open spec fn reads_as_address(s: Seq<char>, n: nat) -> bool {
    &&& s.len() > 2
    &&& s[0] == '0' && s[1] == 'x'
    &&& forall|i: int| 2 <= i < s.len() ==> is_digit(#[trigger] s[i], 16)
    &&& digits_value(s.subrange(2, s.len() as int), 16) == n
}

/// Whether `s` writes `n` in decimal: at least one decimal digit, after a `-`
/// when `n` is negative, whose value is the magnitude of `n`.
pub open spec fn reads_as_decimal(s: Seq<char>, n: int) -> bool {
    let start: int = if n < 0 { 1 } else { 0 };
    &&& s.len() > start
    &&& n < 0 ==> s[0] == '-'
    &&& forall|i: int| start <= i < s.len() ==> is_digit(#[trigger] s[i], 10)
    &&& digits_value(s.subrange(start, s.len() as int), 10) == (if n < 0 { -n } else { n })
}

/// The text of an address reads back as that address.
pub proof fn lemma_address_reads_back(n: nat)
    ensures
        reads_as_address(address(n), n),
{
    lemma_digits_read_back(n, 16);
    let s = address(n);
    assert(s.subrange(2, s.len() as int) =~= digits(n, 16));
    assert forall|i: int| 2 <= i < s.len() implies is_digit(#[trigger] s[i], 16) by {
        assert(s[i] == digits(n, 16)[i - 2]);
    }
}

/// The decimal text of a natural number reads back as that number.
pub proof fn lemma_decimal_reads_back(n: nat)
    ensures
        reads_as_decimal(decimal(n), n as int),
{
    lemma_digits_read_back(n, 10);
    assert(decimal(n).subrange(0, decimal(n).len() as int) =~= decimal(n));
}

/// The signed decimal text of an integer reads back as that integer.
pub proof fn lemma_signed_decimal_reads_back(n: int)
    ensures
        reads_as_decimal(signed_decimal(n), n),
{
    if n < 0 {
        let m = (-n) as nat;
        lemma_digits_read_back(m, 10);
        let s = signed_decimal(n);
        assert(s.subrange(1, s.len() as int) =~= decimal(m));
        assert forall|i: int| 1 <= i < s.len() implies is_digit(#[trigger] s[i], 10) by {
            assert(s[i] == decimal(m)[i - 1]);
        }
    } else {
        lemma_decimal_reads_back(n as nat);
    }
}

} // verus!
