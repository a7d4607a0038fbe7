//! Numbers of double precision, as whole numbers of their smallest unit: what a decimal
//! number becomes, and what a product is rounded to.

use crate::decimal::{nearest_even, pow10};
use vstd::arithmetic::power2::pow2;
use vstd::prelude::*;

verus! {

/// Two to the power 53: a number of double precision has as many binary digits.
pub const PRECISION: u128 = 0x20_0000_0000_0000;

/// How many of the smallest unit make one.
pub open spec fn unit() -> int {
    pow2(1074) as int
}

/// `a / b` units with the precision of a double: the nearest whole number, halves to the
/// even one; a number with more digits than that is rounded in units of twice the size.
pub open spec fn rounded(a: int, b: int) -> int
    decreases a - b,
{
    if b <= 0 || a < PRECISION * b {
        nearest_even(a, b)
    } else {
        2 * rounded(a, 2 * b)
    }
}

/// The number of double precision that is nearest to `num / den`, in units.
pub open spec fn double(num: int, den: int) -> int {
    rounded(num * unit(), den)
}

proof fn lemma_even_scaled(a: int, b: int, c: int)
    requires
        a >= 0,
        b > 0,
        c > 0,
    ensures
        nearest_even(c * a, c * b) == nearest_even(a, b),
{
    let (q, r) = (a / b, a % b);
    vstd::arithmetic::div_mod::lemma_fundamental_div_mod(a, b);
    vstd::arithmetic::div_mod::lemma_mod_bound(a, b);
    assert(c * a == q * (c * b) + c * r) by (nonlinear_arith)
        requires
            a == b * q + r,
    ;
    assert(0 <= c * r < c * b) by (nonlinear_arith)
        requires
            0 <= r < b,
            c > 0,
    ;
    vstd::arithmetic::div_mod::lemma_fundamental_div_mod_converse(c * a, c * b, q, c * r);
    assert(2 * (c * r) < c * b <==> 2 * r < b) by (nonlinear_arith)
        requires
            c > 0,
    ;
    assert(2 * (c * r) == c * b <==> 2 * r == b) by (nonlinear_arith)
        requires
            c > 0,
    ;
}

/// Only the ratio counts.
pub proof fn lemma_scaled(a: int, b: int, c: int)
    requires
        a >= 0,
        b > 0,
        c > 0,
    ensures
        c * b > 0,
        rounded(c * a, c * b) == rounded(a, b),
    decreases a - b,
{
    assert(c * b > 0) by (nonlinear_arith)
        requires
            b > 0,
            c > 0,
    ;
    assert(c * a < PRECISION * (c * b) <==> a < PRECISION * b) by (nonlinear_arith)
        requires
            c > 0,
    ;
    if a < PRECISION * b {
        lemma_even_scaled(a, b, c);
    } else {
        lemma_scaled(a, 2 * b, c);
        assert(c * (2 * b) == 2 * (c * b)) by (nonlinear_arith);
    }
}

/// Only the ratio counts.
pub proof fn lemma_same_ratio(a: int, b: int, c: int, d: int)
    requires
        a >= 0,
        b > 0,
        c >= 0,
        d > 0,
        a * d == c * b,
    ensures
        rounded(a, b) == rounded(c, d),
{
    lemma_scaled(a, b, d);
    lemma_scaled(c, d, b);
    assert(d * a == b * c && d * b == b * d) by (nonlinear_arith)
        requires
            a * d == c * b,
    ;
}

/// A number with all its digits is as precise in any smaller unit.
pub proof fn lemma_finer(a: int, b: int, k: nat)
    requires
        b > 0,
        2 * a >= PRECISION * b,
    ensures
        rounded(a * pow2(k), b) == pow2(k) * rounded(a, b),
    decreases k,
{
    vstd::arithmetic::power2::lemma_pow2_pos(k);
    if k == 0 {
        vstd::arithmetic::power2::lemma2_to64();
        assert(a * 1 == a && 1 * rounded(a, b) == rounded(a, b));
    } else {
        let j = (k - 1) as nat;
        vstd::arithmetic::power2::lemma_pow2_unfold(k);
        vstd::arithmetic::power2::lemma_pow2_pos(j);
        let (p, h) = (pow2(k) as int, pow2(j) as int);
        assert(a * p == 2 * (a * h)) by (nonlinear_arith)
            requires
                p == 2 * h,
        ;
        assert(a * h >= a) by (nonlinear_arith)
            requires
                a >= 0,
                h >= 1,
        ;
        assert(rounded(a * p, b) == 2 * rounded(a * p, 2 * b));
        lemma_scaled(a * h, b, 2);
        lemma_finer(a, b, j);
        let r = rounded(a, b);
        assert(2 * (h * r) == p * r) by (nonlinear_arith)
            requires
                p == 2 * h,
        ;
    }
}

proof fn lemma_even_near(a: int, b: int)
    requires
        a >= 0,
        b > 0,
    ensures
        nearest_even(a, b) >= 0,
        -b <= 2 * (nearest_even(a, b) * b - a) <= b,
{
    let (q, r) = (a / b, a % b);
    vstd::arithmetic::div_mod::lemma_fundamental_div_mod(a, b);
    vstd::arithmetic::div_mod::lemma_mod_bound(a, b);
    assert(q >= 0) by (nonlinear_arith)
        requires
            a == b * q + r,
            a >= 0,
            0 <= r < b,
    ;
    assert(q * b == b * q && (q + 1) * b == b * q + b) by (nonlinear_arith);
}

/// How far a rounded number is off: at most half a unit of its last digit.
pub proof fn lemma_near(a: int, b: int)
    requires
        b > 0,
        2 * a >= PRECISION * b,
    ensures
        -a <= PRECISION * (rounded(a, b) * b - a) <= a,
    decreases a - b,
{
    if a < PRECISION * b {
        lemma_even_near(a, b);
    } else {
        lemma_near(a, 2 * b);
        let r = rounded(a, 2 * b);
        assert((2 * r) * b == r * (2 * b)) by (nonlinear_arith);
    }
}

/// A bound for every rounded number.
pub proof fn lemma_roughly(a: int, b: int)
    requires
        a >= 0,
        b > 0,
    ensures
        rounded(a, b) >= 0,
        rounded(a, b) * b <= 2 * a + b,
        2 * (rounded(a, b) * b) >= a - b,
{
    let r = rounded(a, b);
    if a < PRECISION * b {
        lemma_even_near(a, b);
    } else {
        lemma_near(a, b);
        assert(r >= 0) by (nonlinear_arith)
            requires
                r * b >= 0,
                b > 0,
        ;
    }
}

/// A number with no more digits than there are stays as it is.
pub proof fn lemma_exact(m: int, k: nat)
    requires
        PRECISION <= 2 * m < 2 * PRECISION,
    ensures
        rounded(m * pow2(k), 1) == m * pow2(k),
{
    lemma_finer(m, 1, k);
    assert(m / 1 == m && m % 1 == 0);
    let p = pow2(k) as int;
    assert(p * m == m * p) by (nonlinear_arith);
}

/// `v / w` units with the precision of a double.
pub fn round_double(v: u128, w: u128) -> (r: u128)
    requires
        0 < w <= 0x1_0000_0000_0000_0000,
        v < 0x1000_0000_0000_0000_0000_0000_0000,
    ensures
        r == rounded(v as int, w as int),
        r <= 2 * v + 1,
    decreases v - w,
{
    proof {
        lemma_roughly(v as int, w as int);
        let r = rounded(v as int, w as int);
        assert(r <= 2 * v + 1) by (nonlinear_arith)
            requires
                r * w <= 2 * v + w,
                w >= 1,
                r >= 0,
                v >= 0,
        ;
    }
    if v < PRECISION * w {
        let (whole, rest): (u128, u128) = (v / w, v % w);
        if 2 * rest < w || 2 * rest == w && whole % 2 == 0 {
            whole
        } else {
            whole + 1
        }
    } else {
        let half: u128 = round_double(v, 2 * w);
        proof {
            assert(rounded(v as int, w as int) == 2 * half);
        }
        2 * half
    }
}

/// What a row of decimal digits behind the point counts, in units of its last digit.
pub open spec fn row_value(row: Seq<u8>) -> int
    decreases row.len(),
{
    if row.len() == 0 {
        0
    } else {
        10 * row_value(row.drop_last()) + row.last()
    }
}

/// Whether every entry is a decimal digit.
pub open spec fn is_row(row: Seq<u8>) -> bool {
    forall|i: int| 0 <= i < row.len() ==> #[trigger] row[i] < 10
}

pub proof fn lemma_row_bound(row: Seq<u8>)
    requires
        is_row(row),
    ensures
        0 <= row_value(row) < pow10(row.len()),
        row_value(row) == 0 <==> forall|i: int| 0 <= i < row.len() ==> row[i] == 0,
    decreases row.len(),
{
    if row.len() > 0 {
        let head = row.drop_last();
        assert forall|i: int| 0 <= i < head.len() implies #[trigger] head[i] < 10 by {
            assert(head[i] == row[i]);
        }
        lemma_row_bound(head);
        assert(row[row.len() - 1] < 10);
        if row_value(row) == 0 {
            assert forall|i: int| 0 <= i < row.len() implies row[i] == 0 by {
                if i < head.len() {
                    assert(head[i] == 0);
                }
            }
        } else if forall|i: int| 0 <= i < row.len() ==> row[i] == 0 {
            assert forall|i: int| 0 <= i < head.len() implies head[i] == 0 by {
                assert(row[i] == 0);
            }
        }
    }
}

/// The first digit of a row counts most.
proof fn lemma_row_first(row: Seq<u8>)
    requires
        row.len() > 0,
    ensures
        row_value(row) == row[0] * pow10((row.len() - 1) as nat) + row_value(row.skip(1)),
    decreases row.len(),
{
    let tail = row.skip(1);
    if row.len() == 1 {
        assert(row_value(row.drop_last()) == 0);
        assert(row_value(tail) == 0);
        assert(pow10(0) == 1);
        assert(row[0] * pow10(0) == row[0]) by (nonlinear_arith)
            requires
                pow10(0) == 1,
        ;
    } else {
        lemma_row_first(row.drop_last());
        assert(row.drop_last().skip(1) =~= tail.drop_last());
        let (d, w) = (row[0] as int, pow10((row.len() - 2) as nat) as int);
        assert(pow10((row.len() - 1) as nat) == 10 * w);
        assert(tail.last() == row.last());
        assert(10 * (d * w) == d * (10 * w)) by (nonlinear_arith);
    }
}

/// Doubles the number that a row writes, and gives what is carried over the point.
fn double_row(row: &mut Vec<u8>) -> (carry: u8)
    requires
        is_row(old(row)@),
    ensures
        is_row(final(row)@),
        final(row)@.len() == old(row)@.len(),
        carry <= 1,
        2 * row_value(old(row)@) == carry * pow10(old(row)@.len()) + row_value(final(row)@),
{
    let ghost before = row@;
    let n: usize = row.len();
    let mut carry: u8 = 0;
    let mut i: usize = n;
    assert(before.skip(n as int) =~= row@.skip(n as int));
    assert(row_value(before.skip(n as int)) == 0);
    assert(0 * pow10(0) == 0);
    while i > 0
        invariant
            i <= n,
            n == row@.len() == before.len(),
            is_row(row@),
            is_row(before),
            carry <= 1,
            forall|j: int| 0 <= j < i ==> row@[j] == before[j],
            2 * row_value(before.skip(i as int)) == carry * pow10((n - i) as nat) + row_value(
                row@.skip(i as int),
            ),
        decreases i,
    {
        let ghost last = row@;
        let ghost held = carry as int;
        i = i - 1;
        assert(row@[i as int] < 10);
        let d: u8 = 2 * row[i] + carry;
        carry = if d >= 10 {
            1
        } else {
            0
        };
        let kept: u8 = if d >= 10 {
            d - 10
        } else {
            d
        };
        row.set(i, kept);
        proof {
            let (x, w) = (before[i as int] as int, pow10((n - i - 1) as nat) as int);
            lemma_row_first(before.skip(i as int));
            lemma_row_first(row@.skip(i as int));
            assert(before.skip(i as int).skip(1) =~= before.skip(i + 1));
            assert(row@.skip(i as int).skip(1) =~= last.skip(i + 1));
            let c = carry as int;
            let k = kept as int;
            assert(2 * x + held == 10 * c + k);
            assert(2 * (x * w) + held * w == c * (10 * w) + k * w) by (nonlinear_arith)
                requires
                    2 * x + held == 10 * c + k,
            ;
        }
    }
    assert(before.skip(0) =~= before);
    assert(row@.skip(0) =~= row@);
    carry
}

/// How many binary digits behind the point are looked at.
pub const BITS: u32 = 60;

/// A remainder that is not nothing tips the balance as if it were half a unit: only
/// whether there is one matters behind the last digit.
proof fn lemma_remainder_tips(a: int, b: int, m: int, rest: int, j: int)
    requires
        a == m * b + rest,
        m >= 0,
        0 <= rest < b,
        j > 0,
    ensures
        rounded(a, 2 * j * b) == rounded(
            2 * m + (if rest > 0 {
                1int
            } else {
                0
            }),
            4 * j,
        ),
    decreases a - 2 * j * b,
{
    let st = if rest > 0 {
        1int
    } else {
        0
    };
    let v = 2 * m + st;
    let wide = 2 * j * b;
    assert(wide > 0) by (nonlinear_arith)
        requires
            j > 0,
            b > 0,
            wide == 2 * j * b,
    ;
    let bound = PRECISION * (2 * j);
    assert(PRECISION * wide == bound * b) by (nonlinear_arith)
        requires
            wide == 2 * j * b,
            bound == PRECISION * (2 * j),
    ;
    assert(a < bound * b <==> m < bound) by (nonlinear_arith)
        requires
            a == m * b + rest,
            0 <= rest < b,
    ;
    assert(v < PRECISION * (4 * j) <==> m < bound);
    if m < bound {
        let (q, r) = (m / (2 * j), m % (2 * j));
        vstd::arithmetic::div_mod::lemma_fundamental_div_mod(m, 2 * j);
        vstd::arithmetic::div_mod::lemma_mod_bound(m, 2 * j);
        assert(a == q * wide + (r * b + rest)) by (nonlinear_arith)
            requires
                a == m * b + rest,
                m == (2 * j) * q + r,
                wide == 2 * j * b,
        ;
        assert(0 <= r * b + rest < wide) by (nonlinear_arith)
            requires
                0 <= r < 2 * j,
                0 <= rest < b,
                wide == 2 * j * b,
        ;
        vstd::arithmetic::div_mod::lemma_fundamental_div_mod_converse(a, wide, q, r * b + rest);
        assert(v == q * (4 * j) + (2 * r + st)) by (nonlinear_arith)
            requires
                v == 2 * m + st,
                m == (2 * j) * q + r,
        ;
        vstd::arithmetic::div_mod::lemma_fundamental_div_mod_converse(v, 4 * j, q, 2 * r + st);
        let part = r * b + rest;
        assert(2 * part < wide <==> r < j) by (nonlinear_arith)
            requires
                part == r * b + rest,
                wide == 2 * j * b,
                0 <= rest < b,
        ;
        assert(2 * part == wide <==> r == j && rest == 0) by (nonlinear_arith)
            requires
                part == r * b + rest,
                wide == 2 * j * b,
                0 <= rest < b,
        ;
    } else {
        assert(2 * wide == 2 * (2 * j) * b) by (nonlinear_arith)
            requires
                wide == 2 * j * b,
        ;
        lemma_remainder_tips(a, b, m, rest, 2 * j);
    }
}

/// The number of double precision that is nearest to the decimal number with `whole`
/// before the point and `row` behind it, in units of two to the power -60.
pub fn nearest_double(whole: u64, row: Vec<u8>) -> (r: u128)
    requires
        whole < 10_000,
        is_row(row@),
        128 * (whole * pow10(row@.len()) + row_value(row@)) >= pow10(row@.len()),
    ensures
        r == rounded(
            (whole * pow10(row@.len()) + row_value(row@)) * pow2(60),
            pow10(row@.len()) as int,
        ),
        PRECISION <= 2 * r,
        r < 0x1_0000_0000_0000_0000_0000,
{
    let ghost w = pow10(row@.len()) as int;
    let ghost all = whole * w + row_value(row@);
    let mut row: Vec<u8> = row;
    let n: usize = row.len();
    let mut m: u128 = whole as u128;
    let mut i: u32 = 0;
    proof {
        vstd::arithmetic::power2::lemma2_to64();
        crate::decimal::lemma_pow10_positive(row@.len());
        assert(all * 1 == all);
        assert((whole + 1) * 1 == whole + 1);
    }
    while i < BITS
        invariant
            i <= BITS,
            whole < 10_000,
            n == row@.len(),
            w == pow10(n as nat),
            w > 0,
            is_row(row@),
            m * w + row_value(row@) == all * pow2(i as nat),
            m < (whole + 1) * pow2(i as nat),
        decreases BITS - i,
    {
        let ghost (last, p, rest) = (m as int, pow2(i as nat) as int, row_value(row@));
        proof {
            vstd::arithmetic::power2::lemma_pow2_unfold((i + 1) as nat);
            vstd::arithmetic::power2::lemma2_to64_rest();
            if i < 59 {
                vstd::arithmetic::power2::lemma_pow2_strictly_increases(i as nat, 59);
            }
            assert((whole + 1) * p <= 10_000 * pow2(59)) by (nonlinear_arith)
                requires
                    whole < 10_000,
                    0 <= p <= pow2(59),
            ;
        }
        let carry: u8 = double_row(&mut row);
        m = 2 * m + carry as u128;
        proof {
            let c = carry as int;
            assert((2 * last + c) * w + row_value(row@) == all * (2 * p)) by (nonlinear_arith)
                requires
                    last * w + rest == all * p,
                    2 * rest == c * w + row_value(row@),
            ;
            let top = (whole + 1) * p;
            assert((whole + 1) * (2 * p) == 2 * top) by (nonlinear_arith)
                requires
                    top == (whole + 1) * p,
            ;
        }
        i += 1;
    }
    let mut exact: bool = true;
    let mut k: usize = 0;
    while k < n
        invariant
            k <= n,
            n == row@.len(),
            exact == (forall|j: int| 0 <= j < k ==> row@[j] == 0),
        decreases n - k,
    {
        if row[k] != 0 {
            exact = false;
        }
        k += 1;
    }
    let ghost rest = row_value(row@);
    proof {
        vstd::arithmetic::power2::lemma2_to64_rest();
        let p = pow2(60) as int;
        assert(m < 10_000 * p) by (nonlinear_arith)
            requires
                m < (whole + 1) * p,
                whole < 10_000,
                p > 0,
        ;
    }
    let v: u128 = if exact {
        2 * m
    } else {
        2 * m + 1
    };
    proof {
        lemma_row_bound(row@);
        let p = pow2(60) as int;
        let a = all * p;
        let mm = m as int;
        // The number has more digits than a double: the last one is doubled at least.
        assert(a >= PRECISION * w) by (nonlinear_arith)
            requires
                128 * all >= w,
                a == all * 0x1000_0000_0000_0000,
                w > 0,
        ;
        assert(mm >= PRECISION) by (nonlinear_arith)
            requires
                a == mm * w + rest,
                0 <= rest < w,
                a >= PRECISION * w,
        ;
        assert(2 * 1 * w == 2 * w);
        lemma_remainder_tips(a, w, mm, rest, 1);
        assert(rounded(a, w) == 2 * rounded(a, 2 * w));
        assert(rounded(v as int, 2) == 2 * rounded(v as int, 4));
        lemma_near(a, w);
        let r = rounded(a, w);
        assert(PRECISION <= 2 * r) by (nonlinear_arith)
            requires
                -a <= PRECISION * (r * w - a),
                a >= PRECISION * w,
                w > 0,
        ;
        assert(r < 0x1_0000_0000_0000_0000_0000) by (nonlinear_arith)
            requires
                PRECISION * (r * w - a) <= a,
                a == mm * w + rest,
                0 <= rest < w,
                mm < 10_000 * 0x1000_0000_0000_0000,
                w > 0,
        ;
    }
    round_double(v, 2)
}

} // verus!
