use vstd::prelude::*;

use crate::text::{abs_u64, fixed_digits, nat_digits, push_char, push_fixed, push_nat};

verus! {

/// Ten to the power `n`, as a mathematical integer.
pub open spec fn pow10(n: nat) -> int
    decreases n,
{
    if n == 0 { 1 } else { 10 * pow10((n - 1) as nat) }
}

/// The largest number of fraction digits a number literal may carry.
pub const MAX_SCALE: u32 = 18;

/// A decimal number `mantissa / 10^scale`.
///
/// Numbers in Pastel sources are decimal literals; they are kept exactly.
/// A number is always in normal form: at most 18 fraction digits, and no
/// trailing zero digit in the fraction. So two numbers are equal exactly
/// when their values are equal.
#[derive(Clone, Copy, Debug, PartialEq, Eq, Structural)]
pub struct Decimal {
    mantissa: i64,
    scale: u32,
}

/// The parts of a number in normal form.
pub open spec fn parts_wf(mantissa: int, scale: int) -> bool {
    &&& 0 <= scale <= MAX_SCALE
    &&& i64::MIN <= mantissa <= i64::MAX
    &&& (scale == 0 || mantissa % 10 != 0)
}

/// The parts of `mantissa / 10^scale` once trailing zero fraction digits are
/// dropped.
pub open spec fn normal_parts(mantissa: int, scale: nat) -> (int, nat)
    decreases scale,
{
    if scale > 0 && mantissa % 10 == 0 {
        normal_parts(mantissa / 10, (scale - 1) as nat)
    } else {
        (mantissa, scale)
    }
}

/// The number `mantissa / 10^scale`.
pub closed spec fn decimal_of(mantissa: int, scale: int) -> Decimal {
    Decimal { mantissa: mantissa as i64, scale: scale as u32 }
}

impl Decimal {
    #[verifier::type_invariant]
    closed spec fn inv(self) -> bool {
        parts_wf(self.mantissa as int, self.scale as int)
    }

    /// The integer whose digits the number carries.
    pub closed spec fn mant(self) -> int {
        self.mantissa as int
    }

    /// The number of fraction digits.
    pub closed spec fn scl(self) -> int {
        self.scale as int
    }
}

pub proof fn lemma_decimal_of(mantissa: int, scale: int)
    requires
        parts_wf(mantissa, scale),
    ensures
        decimal_of(mantissa, scale).mant() == mantissa,
        decimal_of(mantissa, scale).scl() == scale,
{
}

/// Two numbers with the same digits and the same number of fraction digits
/// are the same number.
pub proof fn lemma_decimal_same(a: Decimal, b: Decimal)
    requires
        a.mant() == b.mant(),
        a.scl() == b.scl(),
    ensures
        a == b,
{
}

/// The value of a decimal scaled by `10^18`: an exact integer.
pub open spec fn scaled(d: Decimal) -> int {
    d.mant() * pow10((MAX_SCALE - d.scl()) as nat)
}

/// The distance between two numbers, scaled by `10^18`.
pub open spec fn dist(a: Decimal, b: Decimal) -> int {
    let d = scaled(a) - scaled(b);
    if d < 0 { -d } else { d }
}

/// The text that Rust's `Display` gives for the number: an optional sign,
/// the integer digits, and the fraction digits after a '.' when there are any.
pub open spec fn decimal_chars(d: Decimal) -> Seq<char> {
    let a: int = if d.mant() < 0 { -d.mant() } else { d.mant() };
    let sign: Seq<char> = if d.mant() < 0 { seq!['-'] } else { Seq::empty() };
    if d.scl() == 0 {
        sign + nat_digits(a as nat)
    } else {
        sign + nat_digits((a / pow10(d.scl() as nat)) as nat) + seq!['.'] + fixed_digits(
            (a % pow10(d.scl() as nat)) as nat,
            d.scl() as nat,
        )
    }
}

/// The value truncated toward zero to an integer.
pub open spec fn trunc(d: Decimal) -> int {
    let a: int = if d.mant() < 0 { -d.mant() } else { d.mant() };
    let t = a / pow10(d.scl() as nat);
    if d.mant() < 0 { -t } else { t }
}

pub proof fn lemma_pow10_pos(n: nat)
    ensures
        pow10(n) >= 1,
    decreases n,
{
    if n > 0 {
        lemma_pow10_pos((n - 1) as nat);
    }
}

pub proof fn lemma_pow10_mono(a: nat, b: nat)
    requires
        a <= b,
    ensures
        pow10(a) <= pow10(b),
    decreases b,
{
    if a < b {
        lemma_pow10_mono(a, (b - 1) as nat);
        lemma_pow10_pos((b - 1) as nat);
    }
}

pub proof fn lemma_pow10_18()
    ensures
        pow10(18) == 1000000000000000000int,
{
    reveal_with_fuel(pow10, 19);
}

/// A scaled value fits comfortably in 128 bits.
pub proof fn lemma_scaled_bounds(d: Decimal)
    requires
        parts_wf(d.mant(), d.scl()),
    ensures
        -10000000000000000000000000000000000000 < scaled(d) < 10000000000000000000000000000000000000,
{
    lemma_pow10_mono((MAX_SCALE - d.scl()) as nat, 18);
    lemma_pow10_18();
    lemma_pow10_pos((MAX_SCALE - d.scl()) as nat);
    let p = pow10((MAX_SCALE - d.scl()) as nat);
    let m = d.mant();
    assert(m * p <= 9223372036854775807 * 1000000000000000000) by (nonlinear_arith)
        requires m <= 9223372036854775807, 1 <= p <= 1000000000000000000, -9223372036854775808 <= m;
    assert(m * p >= -9223372036854775808 * 1000000000000000000) by (nonlinear_arith)
        requires -9223372036854775808 <= m, 1 <= p <= 1000000000000000000;
}

/// `10^n` as a machine integer, for `n <= 18`.
pub fn pow10_u64(n: u32) -> (r: u64)
    requires
        n <= 18,
    ensures
        r as int == pow10(n as nat),
{
    let mut r: u64 = 1;
    let mut i: u32 = 0;
    while i < n
        invariant
            i <= n <= 18,
            r as int == pow10(i as nat),
        decreases n - i,
    {
        proof {
            lemma_pow10_mono((i + 1) as nat, 18);
            lemma_pow10_18();
        }
        r = r * 10;
        i = i + 1;
    }
    r
}

impl Decimal {
    /// The number with the integer value `n`.
    pub fn from_int(n: i64) -> (d: Decimal)
        ensures
            d.mant() == n,
            d.scl() == 0,
            d == decimal_of(n as int, 0),
    {
        Decimal { mantissa: n, scale: 0 }
    }

    /// The number `mantissa / 10^scale`, brought to normal form.
    pub fn from_scaled(mantissa: i64, scale: u32) -> (d: Decimal)
        requires
            mantissa >= 0,
            scale <= MAX_SCALE,
        ensures
            d == decimal_of(normal_parts(mantissa as int, scale as nat).0, normal_parts(mantissa as int, scale as nat).1 as int),
            d.mant() == normal_parts(mantissa as int, scale as nat).0,
            d.scl() == normal_parts(mantissa as int, scale as nat).1,
    {
        let mut m = mantissa;
        let mut s = scale;
        while s > 0 && m % 10 == 0
            invariant
                0 <= m <= mantissa,
                s <= scale,
                normal_parts(m as int, s as nat) == normal_parts(mantissa as int, scale as nat),
            decreases s,
        {
            m = m / 10;
            s = s - 1;
        }
        Decimal { mantissa: m, scale: s }
    }

    /// The number `mantissa / 10^scale`, when these parts are in normal form.
    pub fn from_parts(mantissa: i64, scale: u32) -> (d: Decimal)
        requires
            parts_wf(mantissa as int, scale as int),
        ensures
            d == decimal_of(mantissa as int, scale as int),
            d.mant() == mantissa,
            d.scl() == scale,
    {
        Decimal { mantissa, scale }
    }

    /// The number `mantissa / 10^scale`, if these parts are in normal form.
    pub fn new(mantissa: i64, scale: u32) -> (r: Option<Decimal>)
        ensures
            r is Some <==> parts_wf(mantissa as int, scale as int),
            r matches Some(d) ==> d.mant() == mantissa && d.scl() == scale,
    {
        if scale <= MAX_SCALE && (scale == 0 || mantissa % 10 != 0) {
            proof {
                assert((mantissa as int) % 10 != 0 <==> mantissa % 10 != 0) by (nonlinear_arith);
            }
            Some(Decimal { mantissa, scale })
        } else {
            proof {
                assert((mantissa as int) % 10 != 0 <==> mantissa % 10 != 0) by (nonlinear_arith);
            }
            None
        }
    }

    /// The integer whose digits the number carries.
    pub fn mantissa(&self) -> (m: i64)
        ensures
            m == self.mant(),
    {
        self.mantissa
    }

    /// The number of fraction digits.
    pub fn scale(&self) -> (s: u32)
        ensures
            s == self.scl(),
            s <= MAX_SCALE,
    {
        proof {
            use_type_invariant(self);
        }
        self.scale
    }

    /// Whether the value is strictly positive.
    pub fn is_positive(&self) -> (b: bool)
        ensures
            b == (self.mant() > 0),
    {
        self.mantissa > 0
    }

    /// Whether the value is zero or more.
    pub fn is_nonnegative(&self) -> (b: bool)
        ensures
            b == (self.mant() >= 0),
    {
        self.mantissa >= 0
    }

    /// The value scaled by `10^18`, exactly.
    pub fn scaled_value(&self) -> (r: i128)
        ensures
            r as int == scaled(*self),
    {
        proof {
            use_type_invariant(self);
        }
        let p = pow10_u64(MAX_SCALE - self.scale);
        proof {
            lemma_pow10_mono((MAX_SCALE - self.scale) as nat, 18);
            lemma_pow10_18();
            lemma_pow10_pos((MAX_SCALE - self.scale) as nat);
            assert(-9223372036854775808 <= self.mantissa <= 9223372036854775807);
            assert(1 <= p <= 1000000000000000000);
            assert((self.mantissa as int) * (p as int) <= 9223372036854775807 * 1000000000000000000)
                by (nonlinear_arith)
                requires
                    self.mantissa <= 9223372036854775807, 1 <= p <= 1000000000000000000,
                    -9223372036854775808 <= self.mantissa;
            assert((self.mantissa as int) * (p as int) >= -9223372036854775808 * 1000000000000000000)
                by (nonlinear_arith)
                requires
                    -9223372036854775808 <= self.mantissa, 1 <= p <= 1000000000000000000;
        }
        (self.mantissa as i128) * (p as i128)
    }

    /// The distance to another number, scaled by `10^18`.
    pub fn distance(&self, other: &Decimal) -> (r: i128)
        ensures
            r as int == dist(*self, *other),
    {
        proof {
            use_type_invariant(self);
            use_type_invariant(other);
            lemma_scaled_bounds(*self);
            lemma_scaled_bounds(*other);
        }
        let x = self.scaled_value();
        let y = other.scaled_value();
        let d = x - y;
        if d < 0 { -d } else { d }
    }

    /// The value truncated toward zero.
    pub fn truncate(&self) -> (r: i64)
        ensures
            r as int == trunc(*self),
    {
        proof {
            use_type_invariant(self);
        }
        let a = abs_u64(self.mantissa);
        let p = pow10_u64(self.scale);
        proof {
            lemma_pow10_pos(self.scale as nat);
        }
        let t = a / p;
        proof {
            assert(t <= a) by (nonlinear_arith)
                requires t == a / p, p >= 1;
        }
        if self.mantissa < 0 {
            proof {
                if p == 1 {
                    assert(t == a) by (nonlinear_arith)
                        requires t == a / p, p == 1;
                } else {
                    assert(t <= a / 2) by (nonlinear_arith)
                        requires t == a / p, p >= 2;
                }
                assert(t <= 9223372036854775808);
            }
            if t == 9223372036854775808u64 {
                i64::MIN
            } else {
                -(t as i64)
            }
        } else {
            t as i64
        }
    }

    /// Appends the number's text.
    pub fn push_text(&self, s: &mut String)
        ensures
            final(s)@ == old(s)@ + decimal_chars(*self),
    {
        proof {
            use_type_invariant(self);
        }
        let a = abs_u64(self.mantissa);
        if self.mantissa < 0 {
            push_char(s, '-');
        }
        if self.scale == 0 {
            push_nat(s, a);
        } else {
            let p = pow10_u64(self.scale);
            proof {
                lemma_pow10_pos(self.scale as nat);
            }
            push_nat(s, a / p);
            push_char(s, '.');
            push_fixed(s, a % p, self.scale);
        }
        proof {
            assert(final(s)@ =~= old(s)@ + decimal_chars(*self));
        }
    }

    /// The number's text, as Rust's `Display` writes the value.
    pub fn to_text(&self) -> (s: String)
        ensures
            s@ == decimal_chars(*self),
    {
        let mut s = String::new();
        self.push_text(&mut s);
        assert(s@ =~= decimal_chars(*self));
        s
    }
}

} // verus!
