//! Natural numbers of any size.
use vstd::prelude::*;

verus! {

/// The base in which numbers are held.
const BASE: u128 = 4294967296;

/// The largest factor that a number is multiplied by.
pub const MAX_FACTOR: u128 = 73786976294838206464;

spec fn power(i: nat) -> nat
    decreases i,
{
    if i == 0 {
        1
    } else {
        BASE as nat * power((i - 1) as nat)
    }
}

/// What digits are worth, the least significant first.
spec fn worth(digits: Seq<u32>) -> nat
    decreases digits.len(),
{
    if digits.len() == 0 {
        0
    } else {
        worth(digits.drop_last()) + digits.last() as nat * power((digits.len() - 1) as nat)
    }
}

/// What the first `i` digits are worth.
spec fn low(digits: Seq<u32>, i: nat) -> nat {
    worth(
        if i < digits.len() {
            digits.take(i as int)
        } else {
            digits
        },
    )
}

/// Digit `i`; behind the last digit there are zeros.
spec fn digit_at(digits: Seq<u32>, i: nat) -> u32 {
    if i < digits.len() {
        digits[i as int]
    } else {
        0
    }
}

proof fn lemma_low_step(digits: Seq<u32>, i: nat)
    ensures
        low(digits, i + 1) == low(digits, i) + digit_at(digits, i) as nat * power(i),
{
    if i < digits.len() {
        let longer = digits.take((i + 1) as int);
        assert(longer.drop_last() =~= digits.take(i as int));
        if i + 1 == digits.len() {
            assert(longer =~= digits);
        }
    } else {
        assert(0 * power(i) == 0);
    }
}

proof fn lemma_low_bound(digits: Seq<u32>, i: nat)
    ensures
        low(digits, i) < power(i),
    decreases i,
{
    if i == 0 {
        if digits.len() > 0 {
            assert(digits.take(0).len() == 0);
        }
    } else {
        let j = (i - 1) as nat;
        lemma_low_bound(digits, j);
        lemma_low_step(digits, j);
        let (d, p, l) = (digit_at(digits, j) as int, power(j) as int, low(digits, j) as int);
        let b = BASE as int;
        assert(l + d * p < b * p) by (nonlinear_arith)
            requires
                l < p,
                d + 1 <= b,
                0 <= d,
                0 <= l,
        ;
    }
}

proof fn lemma_push(digits: Seq<u32>, d: u32)
    ensures
        worth(digits.push(d)) == worth(digits) + d as nat * power(digits.len()),
{
    assert(digits.push(d).drop_last() =~= digits);
}

/// A natural number.
pub struct Natural {
    digits: Vec<u32>,
}

impl View for Natural {
    type V = nat;

    closed spec fn view(&self) -> nat {
        worth(self.digits@)
    }
}

impl Natural {
    pub fn zero() -> (r: Natural)
        ensures
            r@ == 0,
    {
        Natural { digits: Vec::new() }
    }

    pub fn one() -> (r: Natural)
        ensures
            r@ == 1,
    {
        let mut digits: Vec<u32> = Vec::new();
        proof {
            lemma_push(digits@, 1);
        }
        digits.push(1);
        Natural { digits }
    }

    pub fn times(&self, k: u128) -> (r: Natural)
        requires
            k <= MAX_FACTOR,
        ensures
            r@ == self@ * k,
    {
        let mut out: Vec<u32> = Vec::new();
        let mut carry: u128 = 0;
        let mut i: usize = 0;
        proof {
            lemma_low_bound(self.digits@, 0);
            assert(0 * k == 0);
            assert(0 * power(0) == 0);
        }
        while i < self.digits.len()
            invariant
                k <= MAX_FACTOR,
                carry <= k,
                i <= self.digits.len(),
                out.len() == i,
                worth(out@) + carry * power(i as nat) == low(self.digits@, i as nat) * k,
            decreases self.digits.len() - i,
        {
            let d: u128 = self.digits[i] as u128;
            let ghost before = carry;
            assert(d * k + carry <= 4294967296 * k && d * k >= 0) by (nonlinear_arith)
                requires
                    d <= 4294967295,
                    carry <= k,
            ;
            let t: u128 = d * k + carry;
            let ghost old_out = out@;
            let digit: u32 = (t % BASE) as u32;
            out.push(digit);
            carry = t / BASE;
            proof {
                lemma_push(old_out, digit);
                lemma_low_step(self.digits@, i as nat);
                let (w, l, p) = (
                    worth(old_out) as int,
                    low(self.digits@, i as nat) as int,
                    power(i as nat) as int,
                );
                let (e, c, b) = (digit as int, carry as int, before as int);
                let (dd, kk) = (d as int, k as int);
                assert(power((i + 1) as nat) == 4294967296 * p);
                assert(e + 4294967296 * c == dd * kk + b);
                assert(w + e * p + c * (4294967296 * p) == (l + dd * p) * kk) by (nonlinear_arith)
                    requires
                        w + b * p == l * kk,
                        e + 4294967296 * c == dd * kk + b,
                ;
            }
            i += 1;
        }
        let ghost total = self@ * k;
        assert(low(self.digits@, i as nat) == self@);
        while carry > 0
            invariant
                worth(out@) + carry * power(out@.len()) == total,
            decreases carry,
        {
            let ghost before = carry;
            let ghost old_out = out@;
            let digit: u32 = (carry % BASE) as u32;
            out.push(digit);
            carry = carry / BASE;
            proof {
                lemma_push(old_out, digit);
                let (p, e, c, b) = (
                    power(old_out.len()) as int,
                    digit as int,
                    carry as int,
                    before as int,
                );
                assert(power((old_out.len() + 1) as nat) == 4294967296 * p);
                assert(e * p + c * (4294967296 * p) == b * p) by (nonlinear_arith)
                    requires
                        e + 4294967296 * c == b,
                ;
            }
        }
        Natural { digits: out }
    }

    pub fn plus(&self, other: &Natural) -> (r: Natural)
        ensures
            r@ == self@ + other@,
    {
        let n: usize = if self.digits.len() < other.digits.len() {
            other.digits.len()
        } else {
            self.digits.len()
        };
        let mut out: Vec<u32> = Vec::new();
        let mut carry: u64 = 0;
        let mut i: usize = 0;
        proof {
            lemma_low_bound(self.digits@, 0);
            lemma_low_bound(other.digits@, 0);
        }
        while i < n
            invariant
                carry <= 1,
                i <= n,
                out.len() == i,
                worth(out@) + carry * power(i as nat) == low(self.digits@, i as nat) + low(
                    other.digits@,
                    i as nat,
                ),
            decreases n - i,
        {
            let a: u64 = if i < self.digits.len() {
                self.digits[i] as u64
            } else {
                0
            };
            let b: u64 = if i < other.digits.len() {
                other.digits[i] as u64
            } else {
                0
            };
            let ghost before = carry;
            let t: u64 = a + b + carry;
            let ghost old_out = out@;
            let digit: u32 = (t % 4294967296) as u32;
            out.push(digit);
            carry = t / 4294967296;
            proof {
                lemma_push(old_out, digit);
                lemma_low_step(self.digits@, i as nat);
                lemma_low_step(other.digits@, i as nat);
                let p = power(i as nat) as int;
                let (e, c, b0) = (digit as int, carry as int, before as int);
                let (x, y) = (a as int, b as int);
                assert(power((i + 1) as nat) == 4294967296 * p);
                assert(e * p + c * (4294967296 * p) == x * p + y * p + b0 * p) by (nonlinear_arith)
                    requires
                        e + 4294967296 * c == x + y + b0,
                ;
            }
            i += 1;
        }
        assert(low(self.digits@, n as nat) == self@);
        assert(low(other.digits@, n as nat) == other@);
        if carry > 0 {
            proof {
                lemma_push(out@, 1);
                assert(1 * power(n as nat) == power(n as nat));
            }
            out.push(1);
        }
        Natural { digits: out }
    }

    pub fn less(&self, other: &Natural) -> (r: bool)
        ensures
            r == (self@ < other@),
    {
        let n: usize = if self.digits.len() < other.digits.len() {
            other.digits.len()
        } else {
            self.digits.len()
        };
        let mut smaller = false;
        let mut i: usize = 0;
        proof {
            lemma_low_bound(self.digits@, 0);
            lemma_low_bound(other.digits@, 0);
        }
        while i < n
            invariant
                i <= n,
                smaller == (low(self.digits@, i as nat) < low(other.digits@, i as nat)),
            decreases n - i,
        {
            let a: u32 = if i < self.digits.len() {
                self.digits[i]
            } else {
                0
            };
            let b: u32 = if i < other.digits.len() {
                other.digits[i]
            } else {
                0
            };
            proof {
                lemma_low_bound(self.digits@, i as nat);
                lemma_low_bound(other.digits@, i as nat);
                lemma_low_step(self.digits@, i as nat);
                lemma_low_step(other.digits@, i as nat);
                let p = power(i as nat) as int;
                let (x, y) = (a as int, b as int);
                let (lx, ly) = (
                    low(self.digits@, i as nat) as int,
                    low(other.digits@, i as nat) as int,
                );
                if x < y {
                    assert(x * p + p <= y * p) by (nonlinear_arith)
                        requires
                            x + 1 <= y,
                            0 <= p,
                    ;
                } else if y < x {
                    assert(y * p + p <= x * p) by (nonlinear_arith)
                        requires
                            y + 1 <= x,
                            0 <= p,
                    ;
                }
            }
            if a < b {
                smaller = true;
            } else if b < a {
                smaller = false;
            }
            i += 1;
        }
        assert(low(self.digits@, n as nat) == self@);
        assert(low(other.digits@, n as nat) == other@);
        smaller
    }
}

} // verus!
