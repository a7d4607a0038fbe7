//! Decimal notation of integers.

use vstd::prelude::*;

verus! {

/// Ten to the power `n`.
pub open spec fn pow10(n: nat) -> nat
    decreases n,
{
    if n == 0 {
        1
    } else {
        10 * pow10((n - 1) as nat)
    }
}

pub open spec fn is_digit(c: char) -> bool {
    '0' <= c && c <= '9'
}

pub open spec fn all_digits(s: Seq<char>) -> bool {
    forall|i: int| 0 <= i < s.len() ==> is_digit(#[trigger] s[i])
}

/// What a decimal digit counts.
pub open spec fn digit(c: char) -> int {
    c as int - '0' as int
}

/// The digit that counts `d`.
pub open spec fn digit_char(d: int) -> char {
    ('0' as int + d) as char
}

/// The number that a row of digits writes.
pub open spec fn digits_value(s: Seq<char>) -> int
    decreases s.len(),
{
    if s.len() == 0 {
        0
    } else {
        10 * digits_value(s.drop_last()) + digit(s.last())
    }
}

/// The row of digits that writes `n`, without leading zeros.
pub open spec fn decimal(n: nat) -> Seq<char>
    decreases n,
{
    if n < 10 {
        seq![digit_char(n as int)]
    } else {
        decimal(n / 10).push(digit_char((n % 10) as int))
    }
}

/// The `width` last digits of `n`, with leading zeros.
pub open spec fn padded(n: nat, width: nat) -> Seq<char>
    decreases width,
{
    if width == 0 {
        Seq::empty()
    } else {
        padded(n / 10, (width - 1) as nat).push(digit_char((n % 10) as int))
    }
}

/// A signed number: its digits, behind a minus sign where it is negative.
pub open spec fn signed(n: int) -> Seq<char> {
    if n < 0 {
        seq!['-'] + decimal((-n) as nat)
    } else {
        decimal(n as nat)
    }
}

pub proof fn lemma_digit_char(d: int)
    requires
        0 <= d < 10,
    ensures
        is_digit(digit_char(d)),
        digit(digit_char(d)) == d,
{
}

/// Writing a number and reading it gives the number back.
pub proof fn lemma_decimal_reads_back(n: nat)
    ensures
        all_digits(decimal(n)),
        decimal(n).len() > 0,
        digits_value(decimal(n)) == n,
    decreases n,
{
    if n < 10 {
        lemma_digit_char(n as int);
        assert(decimal(n).drop_last() =~= Seq::empty());
        assert(digits_value(decimal(n).drop_last()) == 0);
    } else {
        lemma_decimal_reads_back(n / 10);
        lemma_digit_char((n % 10) as int);
        assert(decimal(n).drop_last() =~= decimal(n / 10));
    }
}

/// Writing a number on a fixed width and reading it gives the number back.
pub proof fn lemma_padded_reads_back(n: nat, width: nat)
    requires
        n < pow10(width),
    ensures
        all_digits(padded(n, width)),
        padded(n, width).len() == width,
        digits_value(padded(n, width)) == n,
    decreases width,
{
    if width > 0 {
        lemma_padded_reads_back(n / 10, (width - 1) as nat);
        lemma_digit_char((n % 10) as int);
        assert(padded(n, width).drop_last() =~= padded(n / 10, (width - 1) as nat));
    }
}

pub proof fn lemma_pow10_positive(n: nat)
    ensures
        pow10(n) > 0,
    decreases n,
{
    if n > 0 {
        lemma_pow10_positive((n - 1) as nat);
    }
}

pub proof fn lemma_pow10_adds(a: nat, b: nat)
    ensures
        pow10(a + b) == pow10(a) * pow10(b),
    decreases a,
{
    if a > 0 {
        lemma_pow10_adds((a - 1) as nat, b);
        assert(pow10(a + b) == 10 * pow10((a - 1 + b) as nat));
        assert(10 * (pow10((a - 1) as nat) * pow10(b)) == (10 * pow10((a - 1) as nat)) * pow10(b))
            by (nonlinear_arith);
    } else {
        assert(pow10(0) * pow10(b) == pow10(b)) by (nonlinear_arith)
            requires
                pow10(0) == 1,
        ;
    }
}

pub proof fn lemma_pow10_increases(a: nat, b: nat)
    requires
        a <= b,
    ensures
        pow10(a) <= pow10(b),
    decreases b - a,
{
    if a < b {
        lemma_pow10_increases(a, (b - 1) as nat);
        lemma_pow10_positive((b - 1) as nat);
    }
}

/// A row of digits splits into the weights of its two parts.
pub proof fn lemma_digits_concat(a: Seq<char>, b: Seq<char>)
    ensures
        digits_value(a + b) == digits_value(a) * pow10(b.len()) + digits_value(b),
    decreases b.len(),
{
    if b.len() == 0 {
        assert(a + b =~= a);
        assert(digits_value(a) * 1 == digits_value(a));
    } else {
        lemma_digits_concat(a, b.drop_last());
        assert((a + b).drop_last() =~= a + b.drop_last());
        let w = pow10((b.len() - 1) as nat);
        assert(10 * (digits_value(a) * w) == digits_value(a) * (10 * w)) by (nonlinear_arith);
    }
}

/// A row of `n` digits writes less than ten to the power `n`.
pub proof fn lemma_digits_bound(s: Seq<char>)
    requires
        all_digits(s),
    ensures
        0 <= digits_value(s) < pow10(s.len()),
    decreases s.len(),
{
    if s.len() > 0 {
        lemma_digits_bound(s.drop_last());
    }
}

/// The digit that counts `d`, as a text.
pub fn digit_str(d: u64) -> (r: &'static str)
    requires
        d < 10,
    ensures
        r@ == seq![digit_char(d as int)],
{
    proof {
        reveal_strlit("0");
        reveal_strlit("1");
        reveal_strlit("2");
        reveal_strlit("3");
        reveal_strlit("4");
        reveal_strlit("5");
        reveal_strlit("6");
        reveal_strlit("7");
        reveal_strlit("8");
        reveal_strlit("9");
    }
    match d {
        0 => "0",
        1 => "1",
        2 => "2",
        3 => "3",
        4 => "4",
        5 => "5",
        6 => "6",
        7 => "7",
        8 => "8",
        _ => "9",
    }
}

/// Appends the decimal notation of `n`.
pub fn push_decimal(out: &mut String, n: u64)
    ensures
        final(out)@ == old(out)@ + decimal(n as nat),
    decreases n,
{
    if n < 10 {
        out.append(digit_str(n));
    } else {
        push_decimal(out, n / 10);
        out.append(digit_str(n % 10));
        assert(out@ =~= old(out)@ + decimal(n as nat));
    }
}

/// Appends the `width` last digits of `n`, with leading zeros.
pub fn push_padded(out: &mut String, n: u64, width: u32)
    ensures
        final(out)@ == old(out)@ + padded(n as nat, width as nat),
    decreases width,
{
    if width > 0 {
        push_padded(out, n / 10, width - 1);
        out.append(digit_str(n % 10));
    }
    assert(out@ =~= old(out)@ + padded(n as nat, width as nat));
}

/// Appends the decimal notation of a signed number.
pub fn push_signed(out: &mut String, n: i64)
    ensures
        final(out)@ == old(out)@ + signed(n as int),
{
    if n < 0 {
        proof {
            reveal_strlit("-");
        }
        out.append("-");
        push_decimal(out, (-(n as i128)) as u64);
        assert(out@ =~= old(out)@ + signed(n as int));
    } else {
        push_decimal(out, n as u64);
    }
}

/// `a / b` rounded to the nearest integer, halves to the even one.
pub open spec fn nearest_even(a: int, b: int) -> int {
    let (q, r) = (a / b, a % b);
    if 2 * r < b || 2 * r == b && q % 2 == 0 {
        q
    } else {
        q + 1
    }
}

/// A number that counts units of `10^-scale`, written with `decimals` decimals: the
/// sign, a plus only where `plus` asks for it, then the size rounded to the nearest,
/// halves to the even digit.
pub open spec fn fixed(n: int, scale: nat, decimals: nat, plus: bool) -> Seq<char>
    recommends
        decimals <= scale,
{
    let size = if n < 0 {
        -n
    } else {
        n
    };
    let rounded = nearest_even(size, pow10((scale - decimals) as nat) as int);
    let sign = if n < 0 {
        seq!['-']
    } else if plus {
        seq!['+']
    } else {
        Seq::empty()
    };
    let unit = pow10(decimals) as int;
    let whole = decimal((rounded / unit) as nat);
    sign + whole + (if decimals == 0 {
        Seq::empty()
    } else {
        seq!['.'] + padded((rounded % unit) as nat, decimals)
    })
}

/// Ten to the power `n`.
pub fn power_of_ten(n: u32) -> (r: u64)
    requires
        n <= 18,
    ensures
        r == pow10(n as nat),
        1 <= r <= 1_000_000_000_000_000_000,
    decreases n,
{
    if n == 0 {
        1
    } else {
        proof {
            lemma_pow10_bound((n - 1) as nat);
        }
        10 * power_of_ten(n - 1)
    }
}

proof fn lemma_pow10_bound(n: nat)
    requires
        n <= 17,
    ensures
        1 <= pow10(n) <= 100_000_000_000_000_000,
{
    reveal_with_fuel(pow10, 18);
}

/// Appends a number that counts units of `10^-scale`, with `decimals` decimals.
pub fn push_fixed(out: &mut String, n: i64, scale: u32, decimals: u32, plus: bool)
    requires
        decimals <= scale <= 18,
    ensures
        final(out)@ == old(out)@ + fixed(n as int, scale as nat, decimals as nat, plus),
{
    proof {
        reveal_strlit("-");
        reveal_strlit("+");
        reveal_strlit(".");
    }
    let size: u64 = if n < 0 {
        out.append("-");
        (-(n as i128)) as u64
    } else {
        if plus {
            out.append("+");
        }
        n as u64
    };
    let step: u64 = power_of_ten(scale - decimals);
    let (q, r): (u64, u64) = (size / step, size % step);
    proof {
        vstd::arithmetic::div_mod::lemma_div_is_ordered_by_denominator(size as int, 1, step as int);
    }
    let value: u64 = if 2 * r < step || (2 * r == step && q % 2 == 0) {
        q
    } else {
        q + 1
    };
    let unit: u64 = power_of_ten(decimals);
    push_decimal(out, value / unit);
    if decimals > 0 {
        out.append(".");
        push_padded(out, value % unit, decimals);
    }
    assert(out@ =~= old(out)@ + fixed(n as int, scale as nat, decimals as nat, plus));
}

/// Rounding to the nearest, halves to the even one: the result lies within half a unit of
/// the quotient, and is even where it lies exactly half a unit away.
pub proof fn lemma_nearest_even(a: int, b: int)
    requires
        b > 0,
    ensures
        -b <= 2 * (b * nearest_even(a, b) - a) <= b,
        2 * (b * nearest_even(a, b) - a) == b || 2 * (b * nearest_even(a, b) - a) == -b
            ==> nearest_even(a, b) % 2 == 0,
{
    let (q, r) = (a / b, a % b);
    vstd::arithmetic::div_mod::lemma_fundamental_div_mod(a, b);
    vstd::arithmetic::div_mod::lemma_mod_bound(a, b);
    assert(b * (q + 1) == b * q + b) by (nonlinear_arith);
}

/// A number is written so that it reads back: behind the sign, which is there for negative
/// numbers and where a plus is asked for, the digits without the point write the size in
/// units of the last decimal, rounded to the nearest, halves to the even one; the point
/// stands before the last `decimals` digits, and not at all where there are none.
pub proof fn fixed_reads_back(n: int, scale: nat, decimals: nat, plus: bool)
    requires
        decimals <= scale,
    ensures
        ({
            let text = fixed(n, scale, decimals, plus);
            let size = if n < 0 {
                -n
            } else {
                n
            };
            let signs = if n < 0 || plus {
                1int
            } else {
                0
            };
            let point = if decimals > 0 {
                1int
            } else {
                0
            };
            let places = text.len() - decimals - point;
            let digits = text.subrange(signs, places) + text.skip(places + point);
            let step = pow10((scale - decimals) as nat) as int;
            let off = 2 * (step * digits_value(digits) - size);
            &&& signs < places
            &&& n < 0 ==> text[0] == '-'
            &&& n >= 0 && plus ==> text[0] == '+'
            &&& decimals > 0 ==> text[places] == '.'
            &&& all_digits(digits)
            &&& -step <= off <= step
            &&& off == step || off == -step ==> digits_value(digits) % 2 == 0
        }),
{
    let text = fixed(n, scale, decimals, plus);
    let size = if n < 0 {
        -n
    } else {
        n
    };
    let sign = if n < 0 {
        seq!['-']
    } else if plus {
        seq!['+']
    } else {
        Seq::<char>::empty()
    };
    let step = pow10((scale - decimals) as nat) as int;
    lemma_pow10_positive((scale - decimals) as nat);
    lemma_pow10_positive(decimals);
    lemma_nearest_even(size, step);
    let value = nearest_even(size, step);
    assert(value >= 0) by (nonlinear_arith)
        requires
            -step <= 2 * (step * value - size),
            size >= 0,
            step > 0,
    ;
    let unit = pow10(decimals) as int;
    let (q, r) = (value / unit, value % unit);
    vstd::arithmetic::div_mod::lemma_fundamental_div_mod(value, unit);
    vstd::arithmetic::div_mod::lemma_mod_bound(value, unit);
    assert(q >= 0) by (nonlinear_arith)
        requires
            value == unit * q + r,
            r < unit,
            value >= 0,
            unit > 0,
    ;
    let whole = decimal(q as nat);
    let rest = padded(r as nat, decimals);
    lemma_decimal_reads_back(q as nat);
    lemma_padded_reads_back(r as nat, decimals);
    lemma_digits_concat(whole, rest);
    assert(q * unit == unit * q) by (nonlinear_arith);
    let row = whole + rest;
    assert(all_digits(row)) by {
        assert forall|i: int| 0 <= i < row.len() implies is_digit(#[trigger] row[i]) by {
            if i < whole.len() {
                assert(row[i] == whole[i]);
            } else {
                assert(row[i] == rest[i - whole.len()]);
            }
        }
    }
    let point = if decimals > 0 {
        1int
    } else {
        0
    };
    let places = text.len() - decimals - point;
    if decimals == 0 {
        assert(text =~= sign + whole);
        assert(rest =~= Seq::empty());
    } else {
        assert(text =~= sign + whole + seq!['.'] + rest);
    }
    assert(places == sign.len() + whole.len());
    assert(text.subrange(sign.len() as int, places) =~= whole);
    assert(text.skip(places + point) =~= rest);
    if n < 0 || plus {
        assert(text[0] == sign[0]);
    }
    if decimals > 0 {
        assert(text[places] == '.');
    }
}

/// A row of digits counts its last one once and the others ten times: one digit counts what
/// it shows, and every further digit makes those before it count ten times as much.
pub proof fn digits_count_by_tens(s: Seq<char>, c: char)
    requires
        '0' <= c && c <= '9',
    ensures
        digits_value(seq![c]) == c as int - 48,
        0 <= digits_value(seq![c]) <= 9,
        digits_value(s.push(c)) == 10 * digits_value(s) + digits_value(seq![c]),
{
    assert(seq![c].drop_last() =~= Seq::empty());
    assert(digits_value(seq![c].drop_last()) == 0);
    assert(s.push(c).drop_last() =~= s);
}

/// A signed number reads back: behind a minus exactly where it is negative.
pub proof fn signed_reads_back(n: int)
    ensures
        n < 0 ==> signed(n)[0] == '-' && all_digits(signed(n).skip(1)) && digits_value(
            signed(n).skip(1),
        ) == -n,
        n >= 0 ==> all_digits(signed(n)) && digits_value(signed(n)) == n,
{
    if n < 0 {
        lemma_decimal_reads_back((-n) as nat);
        assert(signed(n).skip(1) =~= decimal((-n) as nat));
    } else {
        lemma_decimal_reads_back(n as nat);
    }
}

} // verus!
