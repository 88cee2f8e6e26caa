//! Numbers as bit patterns.
//!
//! A number of the language is a double-precision float. Here it is its 64-bit pattern: one
//! sign bit, eleven exponent bits and 52 fraction bits. What can be read off the pattern
//! without rounding is decided here: order, equality, sign, and whether a number is whole.
use vstd::arithmetic::power2::*;
use vstd::prelude::*;

verus! {

/// The smallest pattern with the sign bit set.
pub const SIGN: u64 = 0x8000_0000_0000_0000;

/// The pattern of infinity; larger magnitudes are not numbers.
pub const INFINITY: u64 = 0x7ff0_0000_0000_0000;

/// The pattern of the circle constant.
pub const PI: u64 = 0x4009_21fb_5444_2d18;

/// How two numbers compare.
#[derive(Clone, Copy, Debug, PartialEq, Eq, Structural)]
pub enum Order {
    Less,
    Equal,
    Greater,
}

/// The pattern without its sign bit.
pub open spec fn magnitude(b: u64) -> int {
    if b >= SIGN {
        b - SIGN
    } else {
        b as int
    }
}

pub open spec fn is_nan(b: u64) -> bool {
    magnitude(b) > INFINITY
}

/// The place of a number in the order of numbers; the two zeros share one.
pub open spec fn rank(b: u64) -> int {
    if b >= SIGN {
        -magnitude(b)
    } else {
        magnitude(b)
    }
}

/// How two numbers compare; what is not a number compares with nothing.
pub open spec fn order_of(a: u64, b: u64) -> Option<Order> {
    if is_nan(a) || is_nan(b) {
        None
    } else if rank(a) < rank(b) {
        Some(Order::Less)
    } else if rank(a) == rank(b) {
        Some(Order::Equal)
    } else {
        Some(Order::Greater)
    }
}

/// The number of the same magnitude and the opposite sign.
pub open spec fn negated(b: u64) -> u64 {
    if b >= SIGN {
        (b - SIGN) as u64
    } else {
        (b + SIGN) as u64
    }
}

/// The biased exponent.
pub open spec fn exponent(b: u64) -> int {
    magnitude(b) / 0x10_0000_0000_0000
}

/// The integer `m` such that the magnitude of the number is `m` times a power of two.
pub open spec fn significand(b: u64) -> nat {
    let f = magnitude(b) % 0x10_0000_0000_0000;
    if exponent(b) == 0 {
        f as nat
    } else {
        (f + 0x10_0000_0000_0000) as nat
    }
}

/// The exponent of that power.
pub open spec fn power(b: u64) -> int {
    if exponent(b) == 0 {
        -1074
    } else {
        exponent(b) - 1075
    }
}

pub open spec fn is_finite(b: u64) -> bool {
    magnitude(b) < INFINITY
}

/// The magnitude of a finite number, rounded towards zero.
pub open spec fn whole_part(b: u64) -> nat {
    if power(b) >= 0 {
        significand(b) * pow2(power(b) as nat)
    } else {
        significand(b) / pow2((-power(b)) as nat)
    }
}

/// Whether a finite number is whole.
pub open spec fn is_whole(b: u64) -> bool {
    power(b) >= 0 || significand(b) % pow2((-power(b)) as nat) == 0
}

/// The larger of the two bounds that a count can have.
pub open spec fn at_most(n: nat, max: nat) -> nat {
    if n <= max {
        n
    } else {
        max
    }
}

/// The 1-based index that a number denotes, if it is whole and positive. Larger than any
/// count is as large as possible.
pub open spec fn index_of(b: u64) -> Option<u64> {
    if b < SIGN && is_finite(b) && is_whole(b) && whole_part(b) >= 1 {
        Some(at_most(whole_part(b), u64::MAX as nat) as u64)
    } else {
        None
    }
}

/// A number rounded towards zero and cut off to the range of `i64`; 0 for what is not a
/// number.
pub open spec fn integer_of(b: u64) -> i64 {
    if is_nan(b) {
        0
    } else if b >= SIGN {
        if is_finite(b) {
            (-(at_most(whole_part(b), 0x8000_0000_0000_0000) as int)) as i64
        } else {
            i64::MIN
        }
    } else if is_finite(b) {
        at_most(whole_part(b), 0x7fff_ffff_ffff_ffff) as i64
    } else {
        i64::MAX
    }
}

/// Equality of numbers is their order's: reflexive but for what is not a number, and
/// symmetric; exactly one of the three relations holds between two numbers.
pub proof fn law_number_order(a: u64, b: u64, c: u64)
    ensures
        !is_nan(a) ==> order_of(a, a) == Some(Order::Equal),
        order_of(a, b) == Some(Order::Less) <==> order_of(b, a) == Some(Order::Greater),
        order_of(a, b) == Some(Order::Equal) <==> order_of(b, a) == Some(Order::Equal),
        order_of(a, b) == Some(Order::Less) && order_of(b, c) == Some(Order::Less) ==> order_of(
            a,
            c,
        ) == Some(Order::Less),
        is_nan(a) ==> order_of(a, b) is None,
{
}

/// Negation is its own inverse and turns the order round.
pub proof fn law_negated(a: u64, b: u64)
    ensures
        negated(negated(a)) == a,
        order_of(a, b) == Some(Order::Less) ==> order_of(negated(a), negated(b)) == Some(
            Order::Greater,
        ),
{
}

/// How two numbers compare.
pub fn order(a: u64, b: u64) -> (r: Option<Order>)
    ensures
        r == order_of(a, b),
{
    let ma = size(a);
    let mb = size(b);
    if ma > INFINITY || mb > INFINITY {
        return None;
    }
    let na = a >= SIGN && ma > 0;
    let nb = b >= SIGN && mb > 0;
    let less = if na {
        if nb {
            ma > mb
        } else {
            true
        }
    } else {
        !nb && ma < mb
    };
    if less {
        Some(Order::Less)
    } else if na == nb && ma == mb {
        Some(Order::Equal)
    } else {
        Some(Order::Greater)
    }
}

/// The pattern without its sign bit.
fn size(b: u64) -> (r: u64)
    ensures
        r == magnitude(b),
{
    if b >= SIGN {
        b - SIGN
    } else {
        b
    }
}

/// The number of the same magnitude and the opposite sign.
pub fn negate(b: u64) -> (r: u64)
    ensures
        r == negated(b),
{
    if b >= SIGN {
        b - SIGN
    } else {
        b + SIGN
    }
}

/// Twice `n`, `k` times, if that stays below the limit of `u64`.
fn doubled(n: u64, k: u64) -> (r: Option<u64>)
    ensures
        match r {
            Some(x) => x == n * pow2(k as nat),
            None => n * pow2(k as nat) > u64::MAX,
        },
{
    let mut x: u64 = n;
    let mut i: u64 = 0;
    assert(pow2(0) == 1) by {
        lemma2_to64();
    }
    assert(n * 1 == n);
    while i < k
        invariant
            i <= k,
            x == n * pow2(i as nat),
        decreases k - i,
    {
        proof {
            lemma_pow2_unfold((i + 1) as nat);
            assert(n * pow2((i + 1) as nat) == 2 * (n * pow2(i as nat))) by (nonlinear_arith)
                requires
                    pow2((i + 1) as nat) == 2 * pow2(i as nat),
            ;
        }
        if x > 0x7fff_ffff_ffff_ffff {
            proof {
                lemma_pow2_grows((i + 1) as nat, k as nat);
                assert(n * pow2(k as nat) >= n * pow2((i + 1) as nat)) by (nonlinear_arith)
                    requires
                        pow2(k as nat) >= pow2((i + 1) as nat),
                ;
            }
            return None;
        }
        x = 2 * x;
        i += 1;
    }
    Some(x)
}

proof fn lemma_pow2_grows(a: nat, b: nat)
    requires
        a <= b,
    ensures
        pow2(a) <= pow2(b),
        pow2(a) > 0,
    decreases b - a,
{
    lemma_pow2_pos(a);
    if a < b {
        lemma_pow2_grows(a, (b - 1) as nat);
        lemma_pow2_unfold(b);
    }
}

/// Half of `n`, `k` times, and whether nothing was lost.
fn halved(n: u64, k: u64) -> (r: (u64, bool))
    ensures
        r.0 == n as nat / pow2(k as nat),
        r.1 == (n as nat % pow2(k as nat) == 0),
{
    if k >= 64 {
        proof {
            lemma2_to64();
            lemma_pow2_grows(64, k as nat);
            lemma_small(n as nat, pow2(k as nat));
        }
        return (0, n == 0);
    }
    let mut d: u64 = 1;
    let mut i: u64 = 0;
    assert(pow2(0) == 1) by {
        lemma2_to64();
    }
    while i < k
        invariant
            i <= k < 64,
            d == pow2(i as nat),
        decreases k - i,
    {
        proof {
            lemma_pow2_unfold((i + 1) as nat);
            lemma_pow2_grows((i + 1) as nat, 63);
            lemma2_to64_rest();
        }
        d = 2 * d;
        i += 1;
    }
    proof {
        lemma_pow2_pos(k as nat);
    }
    (n / d, n % d == 0)
}

proof fn lemma_small(n: nat, d: nat)
    requires
        n < d,
    ensures
        n / d == 0,
        n % d == n,
{
    vstd::arithmetic::div_mod::lemma_small_mod(n, d);
    vstd::arithmetic::div_mod::lemma_basic_div(n as int, d as int);
}

/// The biased exponent and the significand.
fn parts(b: u64) -> (r: (u64, u64))
    ensures
        r.0 == exponent(b),
        r.1 == significand(b),
        r.0 < 2048,
{
    let m = size(b);
    let e = m / 0x10_0000_0000_0000;
    let f = m % 0x10_0000_0000_0000;
    if e == 0 {
        (e, f)
    } else {
        (e, f + 0x10_0000_0000_0000)
    }
}

/// The magnitude of a finite number rounded towards zero, if it is below the limit of `u64`,
/// and whether the number is whole.
fn split(b: u64) -> (r: (Option<u64>, bool))
    ensures
        match r.0 {
            Some(x) => x == whole_part(b),
            None => whole_part(b) > u64::MAX,
        },
        r.1 == is_whole(b),
{
    let (e, s) = parts(b);
    if e >= 1075 {
        (doubled(s, e - 1075), true)
    } else {
        let k: u64 = if e == 0 {
            1074
        } else {
            1075 - e
        };
        let (x, exact) = halved(s, k);
        (Some(x), exact)
    }
}

/// The 1-based index that a number denotes.
pub fn index(b: u64) -> (r: Option<u64>)
    ensures
        r == index_of(b),
{
    if b >= INFINITY {
        return None;
    }
    let (x, exact) = split(b);
    if !exact {
        return None;
    }
    match x {
        None => Some(u64::MAX),
        Some(x) => if x >= 1 {
            Some(x)
        } else {
            None
        },
    }
}

/// A number rounded towards zero, cut off to the range of `i64`.
pub fn integer(b: u64) -> (r: i64)
    ensures
        r == integer_of(b),
{
    let m = size(b);
    if m > INFINITY {
        return 0;
    }
    if m == INFINITY {
        return if b >= SIGN {
            i64::MIN
        } else {
            i64::MAX
        };
    }
    let (x, _) = split(b);
    if b >= SIGN {
        match x {
            Some(x) => if x <= 0x7fff_ffff_ffff_ffff {
                -(x as i64)
            } else {
                i64::MIN
            },
            None => i64::MIN,
        }
    } else {
        match x {
            Some(x) => if x <= 0x7fff_ffff_ffff_ffff {
                x as i64
            } else {
                i64::MAX
            },
            None => i64::MAX,
        }
    }
}

} // verus!
