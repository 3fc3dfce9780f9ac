//! Exact decimal numbers.
//!
//! Document values of kind Number are carried as a mantissa together with a
//! decimal scale: the number denoted is `mantissa / 10^scale`. Keeping numbers
//! exact lets the `multipleOf` keyword use exact remainder arithmetic for
//! every numeric value, integer or not.

use vstd::prelude::*;

verus! {

/// Powers of ten, as a mathematical integer.
pub open spec fn pow10(n: nat) -> int
    decreases n,
{
    if n == 0 {
        1
    } else {
        10 * pow10((n - 1) as nat)
    }
}

pub proof fn lemma_pow10_positive(n: nat)
    ensures
        pow10(n) >= 1,
    decreases n,
{
    if n > 0 {
        lemma_pow10_positive((n - 1) as nat);
    }
}

pub proof fn lemma_pow10_bound(n: nat)
    requires
        n <= 18,
    ensures
        1 <= pow10(n) <= 1_000_000_000_000_000_000,
    decreases n,
{
    lemma_pow10_positive(n);
    lemma_pow10_monotone(n, 18);
    assert(pow10(18) == 1_000_000_000_000_000_000) by {
        reveal_with_fuel(pow10, 19);
    }
}

pub proof fn lemma_pow10_monotone(a: nat, b: nat)
    requires
        a <= b,
    ensures
        pow10(a) <= pow10(b),
    decreases b,
{
    lemma_pow10_positive(a);
    if a < b {
        lemma_pow10_monotone(a, (b - 1) as nat);
        lemma_pow10_positive((b - 1) as nat);
    }
}

/// The largest scale a `Decimal` may carry.
pub const MAX_SCALE: u32 = 18;

/// An exact decimal number: the value `mantissa / 10^scale`.
#[derive(Clone, Copy, Debug, PartialEq, Eq, Structural)]
pub struct Decimal {
    mantissa: i64,
    scale: u32,
}

impl Decimal {
    /// The mantissa of this number.
    pub closed spec fn spec_mantissa(self) -> i64 {
        self.mantissa
    }

    /// The decimal scale of this number.
    pub closed spec fn spec_scale(self) -> u32 {
        self.scale
    }

    #[verifier::type_invariant]
    pub closed spec fn inv(self) -> bool {
        self.scale <= MAX_SCALE
    }

    /// The decimal denoting a given integer.
    pub closed spec fn spec_from_integer(value: i64) -> Decimal {
        Decimal { mantissa: value, scale: 0 }
    }

    pub broadcast proof fn lemma_from_integer(value: i64)
        ensures
            (#[trigger] Decimal::spec_from_integer(value)).spec_mantissa() == value,
            Decimal::spec_from_integer(value).spec_scale() == 0,
    {
    }

    pub fn new(mantissa: i64, scale: u32) -> (r: Decimal)
        requires
            scale <= MAX_SCALE,
        ensures
            r.spec_mantissa() == mantissa,
            r.spec_scale() == scale,
    {
        Decimal { mantissa, scale }
    }

    pub fn from_integer(value: i64) -> (r: Decimal)
        ensures
            r == Decimal::spec_from_integer(value),
            r.spec_mantissa() == value,
            r.spec_scale() == 0,
    {
        Decimal { mantissa: value, scale: 0 }
    }

    pub fn mantissa(&self) -> (r: i64)
        ensures
            r == self.spec_mantissa(),
    {
        self.mantissa
    }

    pub fn scale(&self) -> (r: u32)
        ensures
            r == self.spec_scale(),
    {
        self.scale
    }

    /// Whether the denoted number is an integer.
    pub open spec fn spec_is_integral(self) -> bool {
        self.spec_mantissa() as int % pow10(self.spec_scale() as nat) == 0
    }

    /// The denoted number, when it is an integer.
    pub open spec fn spec_integer_value(self) -> int {
        self.spec_mantissa() as int / pow10(self.spec_scale() as nat)
    }

    /// Whether the denoted number is strictly positive.
    pub open spec fn spec_is_positive(self) -> bool {
        self.spec_mantissa() > 0
    }

    pub fn is_positive(&self) -> (r: bool)
        ensures
            r == self.spec_is_positive(),
    {
        self.mantissa > 0
    }

    /// Whether this number is an exact multiple of `divisor`: cross-scaling
    /// both mantissas to a common denominator, the remainder is zero.
    pub open spec fn spec_is_multiple_of(self, divisor: Decimal) -> bool {
        (self.spec_mantissa() * pow10(divisor.spec_scale() as nat)) % (divisor.spec_mantissa()
            * pow10(self.spec_scale() as nat)) == 0
    }

    pub fn is_integral(&self) -> (r: bool)
        ensures
            r == self.spec_is_integral(),
    {
        proof {
            use_type_invariant(*self);
        }
        let p = pow10_u64(self.scale);
        let am = abs_u64(self.mantissa);
        proof {
            lemma_pow10_positive(self.scale as nat);
            lemma_abs_divisibility(self.mantissa as int, p as int);
        }
        am % p == 0
    }

    /// The denoted integer, for a decimal that is integral.
    pub fn integer_value(&self) -> (r: i64)
        requires
            self.spec_is_integral(),
        ensures
            r == self.spec_integer_value(),
    {
        proof {
            use_type_invariant(*self);
        }
        let p = pow10_u64(self.scale);
        let am = abs_u64(self.mantissa);
        proof {
            lemma_pow10_positive(self.scale as nat);
            lemma_abs_divisibility(self.mantissa as int, p as int);
        }
        let q: u64 = am / p;
        proof {
            vstd::arithmetic::div_mod::lemma_fundamental_div_mod(am as int, p as int);
            vstd::arithmetic::div_mod::lemma_div_multiples_vanish(
                am as int / p as int,
                p as int,
            );
            if self.mantissa < 0 {
                lemma_neg_div_exact(am as int, p as int);
            }
        }
        if self.mantissa < 0 {
            (-(q as i128)) as i64
        } else {
            q as i64
        }
    }

    pub fn is_multiple_of(&self, divisor: &Decimal) -> (r: bool)
        requires
            divisor.spec_is_positive(),
        ensures
            r == self.spec_is_multiple_of(*divisor),
    {
        proof {
            use_type_invariant(*self);
            use_type_invariant(*divisor);
        }
        let pa = pow10_u64(divisor.scale);
        let pb = pow10_u64(self.scale);
        let am = abs_u64(self.mantissa);
        proof {
            lemma_pow10_bound(self.scale as nat);
            lemma_pow10_bound(divisor.scale as nat);
            assert(am * pa < u128::MAX && divisor.spec_mantissa() * pb < u128::MAX)
                by (nonlinear_arith)
                requires
                    0 <= am <= 0x8000_0000_0000_0000u128,
                    0 <= divisor.spec_mantissa() <= 0x8000_0000_0000_0000u128,
                    0 <= pa <= 1_000_000_000_000_000_000u128,
                    0 <= pb <= 1_000_000_000_000_000_000u128,
            ;
        }
        let ua: u128 = (am as u128) * (pa as u128);
        let ub: u128 = (divisor.mantissa as u128) * (pb as u128);
        proof {
            let a = self.spec_mantissa() * pow10(divisor.spec_scale() as nat);
            let b = divisor.spec_mantissa() * pow10(self.spec_scale() as nat);
            assert(ua == if a >= 0 {
                a
            } else {
                -a
            }) by (nonlinear_arith)
                requires
                    am == if self.spec_mantissa() >= 0 {
                        self.spec_mantissa() as int
                    } else {
                        -(self.spec_mantissa() as int)
                    },
                    pa == pow10(divisor.spec_scale() as nat),
                    pa >= 1,
                    ua == am * pa,
                    a == self.spec_mantissa() * pow10(divisor.spec_scale() as nat),
            ;
            assert(ub == b && b >= 1) by (nonlinear_arith)
                requires
                    divisor.spec_mantissa() >= 1,
                    pb == pow10(self.spec_scale() as nat),
                    pb >= 1,
                    ub == divisor.spec_mantissa() * pb,
                    b == divisor.spec_mantissa() * pb,
            ;
            lemma_abs_divisibility(a, b);
        }
        ua % ub == 0
    }
}

/// The textual rendering of a decimal: an optional minus sign, the integer
/// part, and — for a non-zero scale — a point followed by exactly `scale`
/// fraction digits.
pub open spec fn spec_dec_chars(d: Decimal) -> Seq<char> {
    let a = if d.spec_mantissa() >= 0 {
        d.spec_mantissa() as nat
    } else {
        (-(d.spec_mantissa() as int)) as nat
    };
    let sign: Seq<char> = if d.spec_mantissa() < 0 {
        seq!['-']
    } else {
        Seq::empty()
    };
    if d.spec_scale() == 0 {
        sign + crate::text::spec_nat_chars(a)
    } else {
        sign + crate::text::spec_nat_chars(a / pow10(d.spec_scale() as nat) as nat) + seq!['.']
            + crate::text::spec_fixed_chars(
            a % pow10(d.spec_scale() as nat) as nat,
            d.spec_scale() as nat,
        )
    }
}

impl Decimal {
    /// Render this number as characters.
    pub fn to_chars(&self) -> (r: Vec<char>)
        ensures
            r@ == spec_dec_chars(*self),
    {
        proof {
            use_type_invariant(*self);
        }
        let am = abs_u64(self.mantissa);
        let mut out: Vec<char> = Vec::new();
        if self.mantissa < 0 {
            out.push('-');
        }
        if self.scale == 0 {
            crate::text::push_nat_chars(&mut out, am);
        } else {
            let p = pow10_u64(self.scale);
            proof {
                lemma_pow10_positive(self.scale as nat);
            }
            crate::text::push_nat_chars(&mut out, am / p);
            out.push('.');
            crate::text::push_fixed_chars(&mut out, am % p, self.scale);
        }
        proof {
            assert(out@ =~= spec_dec_chars(*self));
        }
        out
    }
}

/// The absolute value of an `i64`, as a `u64`.
pub fn abs_u64(x: i64) -> (r: u64)
    ensures
        r == if x >= 0 {
            x as int
        } else {
            -(x as int)
        },
{
    if x < 0 {
        (-(x as i128)) as u64
    } else {
        x as u64
    }
}

/// For a positive divisor, a number and its negation are divisible by it
/// together.
proof fn lemma_abs_divisibility(a: int, b: int)
    requires
        b >= 1,
    ensures
        ((if a >= 0 {
            a
        } else {
            -a
        }) % b == 0) <==> (a % b == 0),
{
    if a % b == 0 {
        vstd::arithmetic::div_mod::lemma_fundamental_div_mod(a, b);
        assert((-a) == (-(a / b)) * b) by (nonlinear_arith)
            requires
                a == b * (a / b),
        ;
        vstd::arithmetic::div_mod::lemma_mod_multiples_basic(-(a / b), b);
    }
    if a < 0 && (-a) % b == 0 {
        vstd::arithmetic::div_mod::lemma_fundamental_div_mod(-a, b);
        assert(a == (-((-a) / b)) * b) by (nonlinear_arith)
            requires
                -a == b * ((-a) / b),
        ;
        vstd::arithmetic::div_mod::lemma_mod_multiples_basic(-((-a) / b), b);
    }
}

/// Exact negative division: if `p` divides `n` then `(-n) / p == -(n / p)`.
proof fn lemma_neg_div_exact(n: int, p: int)
    requires
        p >= 1,
        n >= 0,
        n % p == 0,
    ensures
        (-n) / p == -(n / p),
{
    vstd::arithmetic::div_mod::lemma_fundamental_div_mod(n, p);
    assert((-n) == p * (-(n / p))) by (nonlinear_arith)
        requires
            n == p * (n / p),
    ;
    vstd::arithmetic::div_mod::lemma_div_multiples_vanish(-(n / p), p);
}

/// Raise ten to a small power.
pub fn pow10_u64(n: u32) -> (r: u64)
    requires
        n <= MAX_SCALE,
    ensures
        r == pow10(n as nat),
{
    let mut r: u64 = 1;
    let mut i: u32 = 0;
    while i < n
        invariant
            i <= n <= MAX_SCALE,
            r == pow10(i as nat),
        decreases n - i,
    {
        proof {
            lemma_pow10_bound(i as nat);
            lemma_pow10_bound((i + 1) as nat);
        }
        r = r * 10;
        i = i + 1;
    }
    r
}

} // verus!
