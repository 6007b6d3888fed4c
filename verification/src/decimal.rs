//! Decimal text of unsigned integers, plain and zero-padded to a width, as
//! `format!("{}", n)` and `format!("{:0w$}", n)` write them.
use vstd::prelude::*;
use vstd::string::*;
use crate::text::{lex_lt, lemma_lex_lt_push};

verus! {

/// The character of decimal digit `d`.
pub open spec fn digit_char(d: nat) -> char {
    if d == 0 {
        '0'
    } else if d == 1 {
        '1'
    } else if d == 2 {
        '2'
    } else if d == 3 {
        '3'
    } else if d == 4 {
        '4'
    } else if d == 5 {
        '5'
    } else if d == 6 {
        '6'
    } else if d == 7 {
        '7'
    } else if d == 8 {
        '8'
    } else {
        '9'
    }
}

/// The digit a decimal digit character stands for.
pub open spec fn digit_value(c: char) -> nat {
    if c == '1' {
        1
    } else if c == '2' {
        2
    } else if c == '3' {
        3
    } else if c == '4' {
        4
    } else if c == '5' {
        5
    } else if c == '6' {
        6
    } else if c == '7' {
        7
    } else if c == '8' {
        8
    } else if c == '9' {
        9
    } else {
        0
    }
}

/// The decimal text of `n`, without leading zeros (`"0"` for zero).
pub open spec fn decimal(n: nat) -> Seq<char>
    decreases n,
{
    if n < 10 {
        seq![digit_char(n)]
    } else {
        decimal(n / 10).push(digit_char(n % 10))
    }
}

/// `count` zero characters.
pub open spec fn zeros(count: nat) -> Seq<char> {
    Seq::new(count, |_i: int| '0')
}

/// `digits` with zeros in front so that it is at least `width` long.
pub open spec fn zero_padded(digits: Seq<char>, width: nat) -> Seq<char> {
    if digits.len() >= width {
        digits
    } else {
        zeros((width - digits.len()) as nat) + digits
    }
}

/// The number a text of decimal digits stands for (leading zeros allowed).
pub open spec fn value_of_digits(s: Seq<char>) -> nat
    decreases s.len(),
{
    if s.len() == 0 {
        0
    } else {
        value_of_digits(s.drop_last()) * 10 + digit_value(s.last())
    }
}


/// Whether `c` is one of the characters `0` to `9`.
pub open spec fn is_digit(c: char) -> bool {
    '0' as int <= c as int <= '9' as int
}

/// Whether every character of `s` is a decimal digit.
pub open spec fn is_digit_text(s: Seq<char>) -> bool {
    forall|i: int| 0 <= i < s.len() ==> is_digit(#[trigger] s[i])
}

/// `10` to the power `k`.
pub open spec fn pow10(k: nat) -> nat
    decreases k,
{
    if k == 0 {
        1
    } else {
        10 * pow10((k - 1) as nat)
    }
}

proof fn lemma_digit_char_code(d: nat)
    requires
        d < 10,
    ensures
        digit_char(d) as int == 48 + d,
        is_digit(digit_char(d)),
{
}

proof fn lemma_digit_value_code(c: char)
    requires
        is_digit(c),
    ensures
        digit_value(c) == c as int - 48,
{
}

/// Decimal texts consist of digits.
pub proof fn lemma_decimal_is_digit_text(n: nat)
    ensures
        is_digit_text(decimal(n)),
    decreases n,
{
    if n < 10 {
        lemma_digit_char_code(n);
    } else {
        lemma_decimal_is_digit_text(n / 10);
        lemma_digit_char_code(n % 10);
        assert forall|i: int| 0 <= i < decimal(n).len() implies is_digit(#[trigger] decimal(n)[i]) by {
            if i < decimal(n / 10).len() {
                assert(decimal(n)[i] == decimal(n / 10)[i]);
            }
        }
    }
}

/// A number below `10^k` has at most `k` decimal digits.
pub proof fn lemma_decimal_len(n: nat, k: nat)
    requires
        k >= 1,
        n < pow10(k),
    ensures
        decimal(n).len() <= k,
    decreases k,
{
    if n >= 10 {
        assert(k >= 2) by {
            if k == 1 {
                assert(pow10(1) == 10 * pow10(0));
            }
        }
        assert(pow10(k) == 10 * pow10((k - 1) as nat));
        assert(n / 10 < pow10((k - 1) as nat));
        lemma_decimal_len(n / 10, (k - 1) as nat);
    }
}

/// Zero padding keeps a digit text a digit text.
pub proof fn lemma_zero_padded_is_digit_text(n: nat, width: nat)
    ensures
        is_digit_text(zero_padded(decimal(n), width)),
{
    lemma_decimal_is_digit_text(n);
    let d = decimal(n);
    if d.len() < width {
        let z = zeros((width - d.len()) as nat);
        assert forall|i: int| 0 <= i < (z + d).len() implies is_digit(#[trigger] (z + d)[i]) by {
            if i >= z.len() {
                assert((z + d)[i] == d[i - z.len()]);
            }
        }
    }
}

/// Two digit texts of the same length standing for the same number are equal.
pub proof fn lemma_digit_text_value_injective(s: Seq<char>, t: Seq<char>)
    requires
        s.len() == t.len(),
        is_digit_text(s),
        is_digit_text(t),
        value_of_digits(s) == value_of_digits(t),
    ensures
        s == t,
    decreases s.len(),
{
    if s.len() > 0 {
        let x = s.last();
        let y = t.last();
        assert(is_digit(s[s.len() - 1]) && is_digit(t[t.len() - 1]));
        lemma_digit_value_code(x);
        lemma_digit_value_code(y);
        let vs = value_of_digits(s.drop_last());
        let vt = value_of_digits(t.drop_last());
        let dx = digit_value(x);
        let dy = digit_value(y);
        assert(vs == vt && dx == dy) by (nonlinear_arith)
            requires
                vs * 10 + dx == vt * 10 + dy,
                0 <= dx < 10,
                0 <= dy < 10,
                vs >= 0,
                vt >= 0,
        ;
        assert(is_digit_text(s.drop_last())) by {
            assert forall|i: int| 0 <= i < s.drop_last().len() implies is_digit(#[trigger] s.drop_last()[i]) by {
                assert(s.drop_last()[i] == s[i]);
            }
        }
        assert(is_digit_text(t.drop_last())) by {
            assert forall|i: int| 0 <= i < t.drop_last().len() implies is_digit(#[trigger] t.drop_last()[i]) by {
                assert(t.drop_last()[i] == t[i]);
            }
        }
        lemma_digit_text_value_injective(s.drop_last(), t.drop_last());
        assert(s =~= s.drop_last().push(x));
        assert(t =~= t.drop_last().push(y));
    } else {
        assert(s =~= t);
    }
}

/// Of two digit texts of the same length, the one standing for the smaller
/// number comes first in lexicographic order.
pub proof fn lemma_digit_text_order(s: Seq<char>, t: Seq<char>)
    requires
        s.len() == t.len(),
        is_digit_text(s),
        is_digit_text(t),
        value_of_digits(s) < value_of_digits(t),
    ensures
        lex_lt(s, t),
    decreases s.len(),
{
    let x = s.last();
    let y = t.last();
    assert(is_digit(s[s.len() - 1]) && is_digit(t[t.len() - 1]));
    lemma_digit_value_code(x);
    lemma_digit_value_code(y);
    let s0 = s.drop_last();
    let t0 = t.drop_last();
    assert(is_digit_text(s0)) by {
        assert forall|i: int| 0 <= i < s0.len() implies is_digit(#[trigger] s0[i]) by {
            assert(s0[i] == s[i]);
        }
    }
    assert(is_digit_text(t0)) by {
        assert forall|i: int| 0 <= i < t0.len() implies is_digit(#[trigger] t0[i]) by {
            assert(t0[i] == t[i]);
        }
    }
    let vs = value_of_digits(s0);
    let vt = value_of_digits(t0);
    let dx = digit_value(x);
    let dy = digit_value(y);
    assert(s =~= s0.push(x));
    assert(t =~= t0.push(y));
    lemma_lex_lt_push(s0, t0, x, y);
    if vs < vt {
        lemma_digit_text_order(s0, t0);
    } else if vs == vt {
        lemma_digit_text_value_injective(s0, t0);
        assert(dx < dy);
    } else {
        assert(false) by (nonlinear_arith)
            requires
                vs * 10 + dx < vt * 10 + dy,
                vs > vt,
                0 <= dx < 10,
                0 <= dy < 10,
        ;
    }
}

/// The text of one decimal digit.
fn digit_str(d: u64) -> (s: &'static str)
    requires
        d < 10,
    ensures
        s@ == seq![digit_char(d as nat)],
{
    if d == 0 {
        proof {
            reveal_strlit("0");
        }
        "0"
    } else if d == 1 {
        proof {
            reveal_strlit("1");
        }
        "1"
    } else if d == 2 {
        proof {
            reveal_strlit("2");
        }
        "2"
    } else if d == 3 {
        proof {
            reveal_strlit("3");
        }
        "3"
    } else if d == 4 {
        proof {
            reveal_strlit("4");
        }
        "4"
    } else if d == 5 {
        proof {
            reveal_strlit("5");
        }
        "5"
    } else if d == 6 {
        proof {
            reveal_strlit("6");
        }
        "6"
    } else if d == 7 {
        proof {
            reveal_strlit("7");
        }
        "7"
    } else if d == 8 {
        proof {
            reveal_strlit("8");
        }
        "8"
    } else {
        proof {
            reveal_strlit("9");
        }
        "9"
    }
}

/// Appends the decimal text of `n` to `out`.
pub fn push_decimal(out: &mut String, n: u64)
    ensures
        final(out)@ == old(out)@ + decimal(n as nat),
    decreases n,
{
    if n < 10 {
        out.append(digit_str(n));
    } else {
        push_decimal(out, n / 10);
        out.append(digit_str(n % 10));
        proof {
            assert(decimal(n as nat) == decimal((n / 10) as nat).push(digit_char((n % 10) as nat)));
        }
    }
}

/// Appends the decimal text of `n` to `out`, with leading zeros up to `width` characters.
pub fn push_zero_padded(out: &mut String, n: u64, width: usize)
    ensures
        final(out)@ == old(out)@ + zero_padded(decimal(n as nat), width as nat),
{
    let mut digits = String::new();
    push_decimal(&mut digits, n);
    assert(digits@ == decimal(n as nat));
    let len = digits.as_str().unicode_len();
    let mut pad: usize = 0;
    let ghost start = out@;
    if len < width {
        while pad < width - len
            invariant
                len < width,
                pad <= width - len,
                out@ == start + zeros(pad as nat),
            decreases width - len - pad,
        {
            proof {
                reveal_strlit("0");
            }
            out.append("0");
            pad = pad + 1;
            assert(zeros(pad as nat) == zeros((pad - 1) as nat).push('0'));
        }
    }
    out.append(digits.as_str());
    proof {
        if len >= width {
            assert(zeros(0) == Seq::<char>::empty());
        }
        assert(out@ == start + zero_padded(decimal(n as nat), width as nat));
    }
}

/// The decimal text of `n`.
pub fn decimal_string(n: u64) -> (s: String)
    ensures
        s@ == decimal(n as nat),
{
    let mut s = String::new();
    push_decimal(&mut s, n);
    assert(s@ == decimal(n as nat));
    s
}

/// Each digit character stands for its digit.
pub proof fn lemma_digit_roundtrip(d: nat)
    requires
        d < 10,
    ensures
        digit_value(digit_char(d)) == d,
{
}

/// The decimal text of `n` is at least one character long and reads back as `n`.
pub proof fn lemma_decimal_value(n: nat)
    ensures
        decimal(n).len() >= 1,
        value_of_digits(decimal(n)) == n,
    decreases n,
{
    if n < 10 {
        assert(decimal(n).drop_last() == Seq::<char>::empty());
        assert(value_of_digits(Seq::<char>::empty()) == 0);
    } else {
        lemma_decimal_value(n / 10);
        let d = decimal(n);
        assert(d.drop_last() == decimal(n / 10));
        assert(d.last() == digit_char(n % 10));
        lemma_digit_roundtrip(n % 10);
    }
}

/// The decimal text of `n` has no leading zero: it starts with `0` only when
/// `n` is zero, and then it is just `0`.
pub proof fn lemma_decimal_no_leading_zero(n: nat)
    ensures
        decimal(n)[0] == '0' ==> n == 0 && decimal(n).len() == 1,
        n == 0 ==> decimal(n) == seq!['0'],
    decreases n,
{
    if n >= 10 {
        lemma_decimal_no_leading_zero(n / 10);
        lemma_decimal_value(n / 10);
        assert(decimal(n)[0] == decimal(n / 10)[0]);
    }
}

/// Zeros read as zero.
pub proof fn lemma_zeros_value(count: nat)
    ensures
        value_of_digits(zeros(count)) == 0,
    decreases count,
{
    if count > 0 {
        assert(zeros(count).drop_last() == zeros((count - 1) as nat));
        lemma_zeros_value((count - 1) as nat);
    }
}

/// Leading zeros do not change the number a digit text stands for.
pub proof fn lemma_leading_zeros_value(count: nat, s: Seq<char>)
    ensures
        value_of_digits(zeros(count) + s) == value_of_digits(s),
    decreases s.len(),
{
    if s.len() == 0 {
        assert(zeros(count) + s == zeros(count));
        lemma_zeros_value(count);
    } else {
        assert((zeros(count) + s).drop_last() == zeros(count) + s.drop_last());
        assert((zeros(count) + s).last() == s.last());
        lemma_leading_zeros_value(count, s.drop_last());
    }
}

/// Zero padding keeps the number a digit text stands for.
pub proof fn lemma_zero_padded_value(n: nat, width: nat)
    ensures
        value_of_digits(zero_padded(decimal(n), width)) == n,
        zero_padded(decimal(n), width).len() >= width,
{
    lemma_decimal_value(n);
    if decimal(n).len() < width {
        lemma_leading_zeros_value((width - decimal(n).len()) as nat, decimal(n));
    }
}

/// Different numbers have different zero-padded decimal texts.
pub proof fn lemma_zero_padded_injective(a: nat, b: nat, width: nat)
    requires
        a != b,
    ensures
        zero_padded(decimal(a), width) != zero_padded(decimal(b), width),
{
    lemma_zero_padded_value(a, width);
    lemma_zero_padded_value(b, width);
}

} // verus!
