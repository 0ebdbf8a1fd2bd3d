//! File sizes for people to read.
use crate::text::{decimal, digit, digit_char, numeral};
use vstd::prelude::*;
use vstd::string::*;

verus! {

/// `n / d`, rounded to the nearest integer and halves to the even one.
pub open spec fn round_div(n: nat, d: nat) -> nat {
    let whole = n / d;
    let rest = n % d;
    if 2 * rest > d || (2 * rest == d && whole % 2 == 1) {
        whole + 1
    } else {
        whole
    }
}

/// The distance of the neighbours of `n` among the numbers with 53 binary
/// digits, with which sizes are computed.
pub open spec fn spacing(n: nat) -> nat
    decreases n,
{
    if n < 9007199254740992 {
        1
    } else {
        2 * spacing(n / 2)
    }
}

/// The number with 53 binary digits that is nearest to `n`.
pub open spec fn nearest(n: nat) -> nat {
    round_div(n, spacing(n)) * spacing(n)
}

/// Which unit a size is given in: the first in which it is below 1024, or the
/// last.
pub open spec fn unit_index(size: nat) -> nat {
    if size < 1024 {
        0
    } else if size < 1048576 {
        1
    } else if size < 1073741824 {
        2
    } else if size < 1099511627776 {
        3
    } else {
        4
    }
}

pub open spec fn unit_size(k: nat) -> nat {
    if k == 0 {
        1
    } else if k == 1 {
        1024
    } else if k == 2 {
        1048576
    } else if k == 3 {
        1073741824
    } else {
        1099511627776
    }
}

pub open spec fn unit_name(k: nat) -> Seq<char> {
    if k == 0 {
        "B"@
    } else if k == 1 {
        "KB"@
    } else if k == 2 {
        "MB"@
    } else if k == 3 {
        "GB"@
    } else {
        "TB"@
    }
}

/// A number of hundredths, with two decimals.
pub open spec fn two_decimals(hundredths: nat) -> Seq<char> {
    decimal(hundredths / 100) + "."@ + seq![digit((hundredths / 10) % 10), digit(hundredths % 10)]
}

/// A size in bytes, or with two decimals in a larger unit.
pub open spec fn size_text(bytes: nat) -> Seq<char> {
    let size = nearest(bytes);
    let k = unit_index(size);
    if k == 0 {
        decimal(bytes) + " B"@
    } else {
        two_decimals(round_div(size * 100, unit_size(k))) + " "@ + unit_name(k)
    }
}

fn rounded(n: u128, d: u128) -> (r: u128)
    requires
        d > 0,
        d < 0x8000_0000_0000_0000_0000_0000_0000_0000,
        n < u128::MAX,
    ensures
        r == round_div(n as nat, d as nat),
{
    let whole: u128 = n / d;
    let rest: u128 = n % d;
    assert(whole <= n) by (nonlinear_arith)
        requires
            whole == n / d,
            d > 0,
    ;
    if 2 * rest > d || (2 * rest == d && whole % 2 == 1) {
        whole + 1
    } else {
        whole
    }
}

fn spacing_of(n: u128) -> (r: u128)
    requires
        n <= u64::MAX,
    ensures
        r == spacing(n as nat),
        1 <= r <= 2048,
{
    let mut m: u128 = n;
    let mut r: u128 = 1;
    while m >= 9007199254740992
        invariant
            r * spacing(m as nat) == spacing(n as nat),
            r >= 1,
            m * r <= u64::MAX,
            n <= u64::MAX,
        decreases m,
    {
        proof {
            let half: int = m as int / 2;
            let s: int = spacing(half as nat) as int;
            assert(r * (2 * s) == (2 * r) * s) by (nonlinear_arith);
            assert(half * (2 * r) <= m * r) by (nonlinear_arith)
                requires
                    2 * half <= m,
                    r >= 1,
            ;
            assert(9007199254740992 * r <= m * r) by (nonlinear_arith)
                requires
                    9007199254740992 <= m,
                    r >= 1,
            ;
        }
        m = m / 2;
        r = 2 * r;
    }
    proof {
        assert(r * 1 == r);
        lemma_spacing_bound(n as nat);
    }
    r
}

proof fn lemma_spacing_bound(n: nat)
    requires
        n <= 0xffff_ffff_ffff_ffff,
    ensures
        1 <= spacing(n) <= 2048,
{
    reveal_with_fuel(spacing, 13);
}

/// Writes a size for people to read.
pub fn human_size(bytes: u64) -> (r: String)
    ensures
        r@ == size_text(bytes as nat),
{
    let step: u128 = spacing_of(bytes as u128);
    let steps: u128 = rounded(bytes as u128, step);
    proof {
        let (b, s, q) = (bytes as int, step as int, steps as int);
        assert(q <= b / s + 1);
        assert((b / s) * s <= b) by (nonlinear_arith)
            requires
                s > 0,
                b >= 0,
        ;
        assert(q * s <= b + s) by (nonlinear_arith)
            requires
                q <= b / s + 1,
                (b / s) * s <= b,
                s > 0,
                q >= 0,
        ;
    }
    let size: u128 = steps * step;
    assert(size == nearest(bytes as nat));
    assert(size <= 0x1_0000_0000_0000_1000);
    if size < 1024 {
        let mut out = numeral(bytes as u128);
        out.append(" B");
        return out;
    }
    let (unit, name) = if size < 1048576 {
        (1024u128, "KB")
    } else if size < 1073741824 {
        (1048576u128, "MB")
    } else if size < 1099511627776 {
        (1073741824u128, "GB")
    } else {
        (1099511627776u128, "TB")
    };
    let h: u128 = rounded(size * 100, unit);
    let mut out = numeral(h / 100);
    out.append(".");
    let ghost head = out@;
    out.push(digit_char((h / 10) % 10));
    out.push(digit_char(h % 10));
    assert(out@ =~= two_decimals(h as nat));
    out.append(" ");
    out.append(name);
    out
}

// ---- what holds of sizes ----------------------------------------------------

/// Rounding gives the nearest integer.
pub proof fn law_rounding_is_to_the_nearest(n: nat, d: nat)
    requires
        d > 0,
    ensures
        -(d as int) <= 2 * (round_div(n, d) * d - n) <= d,
{
    vstd::arithmetic::div_mod::lemma_fundamental_div_mod(n as int, d as int);
    let (whole, rest) = (n / d, n % d);
    assert(n == d * whole + rest);
    assert(d * whole == whole * d) by (nonlinear_arith);
    assert((whole + 1) * d == whole * d + d) by (nonlinear_arith);
}

/// A size is given in bytes below 1024, and otherwise in the largest unit of which there is
/// one at least, with the nearest number of hundredths.
pub proof fn law_sizes_are_given_in_units(bytes: nat)
    requires
        bytes < 9007199254740992,
    ensures
        bytes < 1024 ==> size_text(bytes) == decimal(bytes) + " B"@,
        1024 <= bytes < 1048576 ==> is_size_in(size_text(bytes), bytes, 1024, "KB"@),
        1048576 <= bytes < 1073741824 ==> is_size_in(size_text(bytes), bytes, 1048576, "MB"@),
        1073741824 <= bytes < 1099511627776 ==> is_size_in(
            size_text(bytes),
            bytes,
            1073741824,
            "GB"@,
        ),
        1099511627776 <= bytes ==> is_size_in(size_text(bytes), bytes, 1099511627776, "TB"@),
{
    assert(spacing(bytes) == 1);
    assert(bytes / 1 == bytes && bytes % 1 == 0);
    assert(nearest(bytes) == bytes);
    let unit = unit_size(unit_index(bytes));
    let h = round_div(bytes * 100, unit);
    law_rounding_is_to_the_nearest(bytes * 100, unit);
    if bytes >= 1024 {
        assert(is_hundredths(size_text(bytes), h, unit_name(unit_index(bytes))));
    }
}

/// The text gives so many hundredths of a unit.
pub open spec fn is_hundredths(text: Seq<char>, h: nat, unit: Seq<char>) -> bool {
    text == decimal(h / 100) + "."@ + seq![digit((h / 10) % 10), digit(h % 10)] + " "@ + unit
}

/// The text gives the size to the nearest hundredth of a unit.
pub open spec fn is_size_in(text: Seq<char>, bytes: nat, size: nat, unit: Seq<char>) -> bool {
    exists|h: nat| #[trigger]
        is_hundredths(text, h, unit) && -(size as int) <= 2 * (h * size - 100 * bytes) <= size
}

} // verus!
