//! Exact decimal numbers with a bounded mantissa.
//!
//! Number leaves of the language carry either a machine integer or a decimal
//! of the form `mag / 10^scale` with an explicit sign. Values are kept
//! normalized (no trailing fractional zeros, no negative zero), so structural
//! equality coincides with numeric equality. Arithmetic is exact whenever the
//! result fits the mantissa bound; otherwise the lowest decimal digits are
//! truncated, and `None` is returned only when even the integer part cannot
//! be represented (or on division by zero).
use vstd::prelude::*;

verus! {

/// Largest representable mantissa: twelve decimal digits.
pub const MAG_MAX: u64 = 999_999_999_999;

/// Largest representable number of fractional digits.
pub const SCALE_MAX: u32 = 12;

/// A signed decimal: `(-1)^neg * mag / 10^scale`.
#[derive(PartialEq, Eq, Structural, Clone, Copy, Debug)]
pub struct Dec {
    pub neg: bool,
    pub mag: u64,
    pub scale: u32,
}

pub open spec fn pow10(e: nat) -> nat
    decreases e,
{
    if e == 0 {
        1
    } else {
        10 * pow10((e - 1) as nat)
    }
}

proof fn lemma_pow10_38()
    ensures
        pow10(12) == 1_000_000_000_000,
        pow10(19) == 10_000_000_000_000_000_000,
        pow10(24) == 1_000_000_000_000_000_000_000_000,
        pow10(38) == 100_000_000_000_000_000_000_000_000_000_000_000_000,
{
    reveal_with_fuel(pow10, 39);
}

proof fn lemma_pow10_mono(e1: nat, e2: nat)
    requires
        e1 <= e2,
    ensures
        pow10(e1) <= pow10(e2),
        pow10(e1) >= 1,
    decreases e2,
{
    if e2 > 0 {
        if e1 == e2 {
            lemma_pow10_mono((e1 - 1) as nat, (e2 - 1) as nat);
        } else {
            lemma_pow10_mono(e1, (e2 - 1) as nat);
        }
    }
}

/// Well-formed (normalized) decimal.
pub open spec fn dec_wf(d: Dec) -> bool {
    &&& d.mag <= MAG_MAX
    &&& d.scale <= SCALE_MAX
    &&& (d.scale > 0 ==> d.mag % 10 != 0)
    &&& (d.neg ==> d.mag != 0)
}

/// Truncate low digits until the mantissa and scale fit their bounds;
/// `None` when the integer part alone is already too large.
pub open spec fn spec_reduce(mag: nat, scale: nat) -> Option<(nat, nat)>
    decreases scale,
{
    if mag <= MAG_MAX && scale <= SCALE_MAX {
        Some((mag, scale))
    } else if scale == 0 {
        None
    } else {
        spec_reduce(mag / 10, (scale - 1) as nat)
    }
}

/// Strip trailing fractional zeros.
pub open spec fn spec_strip(mag: nat, scale: nat) -> (nat, nat)
    decreases scale,
{
    if scale > 0 && mag % 10 == 0 {
        spec_strip(mag / 10, (scale - 1) as nat)
    } else {
        (mag, scale)
    }
}

/// Canonical decimal for a raw sign/mantissa/scale triple.
pub open spec fn spec_make(neg: bool, mag: nat, scale: nat) -> Option<Dec> {
    match spec_reduce(mag, scale) {
        None => None,
        Some((m1, s1)) => {
            let (m2, s2) = spec_strip(m1, s1);
            Some(Dec { neg: neg && m2 != 0, mag: m2 as u64, scale: s2 as u32 })
        },
    }
}

proof fn lemma_reduce_bounds(mag: nat, scale: nat)
    ensures
        match spec_reduce(mag, scale) {
            Some((m, s)) => m <= MAG_MAX && s <= SCALE_MAX && s <= scale,
            None => true,
        },
    decreases scale,
{
    if !(mag <= MAG_MAX && scale <= SCALE_MAX) && scale != 0 {
        lemma_reduce_bounds(mag / 10, (scale - 1) as nat);
    }
}

proof fn lemma_strip_wf(mag: nat, scale: nat)
    requires
        mag <= MAG_MAX,
        scale <= SCALE_MAX,
    ensures
        ({
            let (m, s) = spec_strip(mag, scale);
            m <= mag && s <= scale && (s > 0 ==> m % 10 != 0)
        }),
    decreases scale,
{
    if scale > 0 && mag % 10 == 0 {
        lemma_strip_wf(mag / 10, (scale - 1) as nat);
    }
}

pub proof fn lemma_make_wf(neg: bool, mag: nat, scale: nat)
    ensures
        match spec_make(neg, mag, scale) {
            Some(d) => dec_wf(d),
            None => true,
        },
{
    lemma_reduce_bounds(mag, scale);
    match spec_reduce(mag, scale) {
        Some((m1, s1)) => {
            lemma_strip_wf(m1, s1);
        },
        None => {},
    }
}

fn pow10_u128(e: u32) -> (r: u128)
    requires
        e <= 38,
    ensures
        r == pow10(e as nat),
{
    let mut i: u32 = 0;
    let mut r: u128 = 1;
    while i < e
        invariant
            i <= e <= 38,
            r == pow10(i as nat),
        decreases e - i,
    {
        proof {
            lemma_pow10_mono((i + 1) as nat, 38);
            lemma_pow10_38();
        }
        r = r * 10;
        i = i + 1;
    }
    r
}

/// Reduce and strip a wide raw triple into a canonical decimal.
fn make_dec(neg: bool, mag0: u128, scale0: u32) -> (r: Option<Dec>)
    requires
        scale0 <= 38,
    ensures
        r == spec_make(neg, mag0 as nat, scale0 as nat),
        match r {
            Some(d) => dec_wf(d),
            None => true,
        },
{
    proof {
        lemma_make_wf(neg, mag0 as nat, scale0 as nat);
    }
    let mut mag = mag0;
    let mut scale = scale0;
    while !(mag <= MAG_MAX as u128 && scale <= SCALE_MAX)
        invariant
            spec_reduce(mag as nat, scale as nat) == spec_reduce(mag0 as nat, scale0 as nat),
        decreases scale,
    {
        if scale == 0 {
            return None;
        }
        mag = mag / 10;
        scale = scale - 1;
    }
    proof {
        lemma_reduce_bounds(mag0 as nat, scale0 as nat);
    }
    let ghost (sm, ss) = spec_strip(mag as nat, scale as nat);
    while scale > 0 && mag % 10 == 0
        invariant
            mag <= MAG_MAX as u128,
            scale <= SCALE_MAX,
            spec_strip(mag as nat, scale as nat) == (sm, ss),
        decreases scale,
    {
        mag = mag / 10;
        scale = scale - 1;
    }
    Some(Dec { neg: neg && mag != 0, mag: mag as u64, scale })
}

proof fn lemma_mul_le(a: nat, b: nat, c: nat, d: nat)
    requires
        a <= c,
        b <= d,
    ensures
        a * b <= c * d,
{
    assert(a * b <= c * d) by (nonlinear_arith)
        requires
            a <= c,
            b <= d,
    ;
}

/// `b` with its sign flipped (zero keeps its canonical sign).
pub open spec fn spec_neg(b: Dec) -> Dec {
    if b.mag == 0 {
        b
    } else {
        Dec { neg: !b.neg, ..b }
    }
}

/// Exact sum at the common scale, then canonicalized; `None` on overflow.
pub open spec fn spec_add(a: Dec, b: Dec) -> Option<Dec> {
    let s = if a.scale >= b.scale {
        a.scale
    } else {
        b.scale
    };
    let ma = a.mag * pow10((s - a.scale) as nat);
    let mb = b.mag * pow10((s - b.scale) as nat);
    if a.neg == b.neg {
        spec_make(a.neg, (ma + mb) as nat, s as nat)
    } else if ma >= mb {
        spec_make(a.neg, (ma - mb) as nat, s as nat)
    } else {
        spec_make(b.neg, (mb - ma) as nat, s as nat)
    }
}

pub open spec fn spec_sub(a: Dec, b: Dec) -> Option<Dec> {
    spec_add(a, spec_neg(b))
}

/// Exact product, then canonicalized; `None` on overflow.
pub open spec fn spec_mul(a: Dec, b: Dec) -> Option<Dec> {
    spec_make(a.neg != b.neg, (a.mag * b.mag) as nat, (a.scale + b.scale) as nat)
}

/// Quotient truncated toward zero at `SCALE_MAX` fractional digits, then
/// canonicalized; `None` on division by zero or overflow.
pub open spec fn spec_div(a: Dec, b: Dec) -> Option<Dec> {
    if b.mag == 0 {
        None
    } else {
        let num = a.mag * pow10((b.scale + SCALE_MAX) as nat);
        let den = b.mag * pow10(a.scale as nat);
        spec_make(a.neg != b.neg, (num / den) as nat, SCALE_MAX as nat)
    }
}

/// Twenty or more decimal places exceed any `u64` magnitude.
pub proof fn lemma_pow10_at_least(e: nat)
    requires
        e >= 20,
    ensures
        pow10(e) > u64::MAX,
    decreases e,
{
    lemma_pow10_38();
    if e == 20 {
        assert(pow10(20) == 10 * pow10(19));
    } else {
        lemma_pow10_at_least((e - 1) as nat);
    }
}

/// The power of ten, as a machine integer.
pub fn pow10_u64(e: u32) -> (r: u64)
    requires
        e <= 19,
    ensures
        r == pow10(e as nat),
        r >= 1,
{
    proof {
        lemma_pow10_mono(e as nat, 19);
        lemma_pow10_mono(0, e as nat);
        lemma_pow10_38();
    }
    let w = pow10_u128(e);
    w as u64
}

/// Canonicalize a sign/mantissa/scale triple read from a literal.
pub fn make_from_parts(neg: bool, mag: u64, scale: u32) -> (r: Option<Dec>)
    requires
        scale <= 38,
    ensures
        r == spec_make(neg, mag as nat, scale as nat),
        r is Some ==> dec_wf(r->0),
{
    make_dec(neg, mag as u128, scale)
}

impl Dec {
    /// The decimal `mant / 10^scale`, normalized. Intended for building
    /// expected values; the bounds are the representation's machine limits.
    pub fn from_parts(mant: i64, scale: u32) -> (r: Dec)
        requires
            -(MAG_MAX as int) <= mant as int <= MAG_MAX as int,
            scale <= SCALE_MAX,
        ensures
            Some(r) == spec_make(
                mant < 0,
                (if mant < 0 { -(mant as int) } else { mant as int }) as nat,
                scale as nat,
            ),
            dec_wf(r),
    {
        let neg = mant < 0;
        let mag: u64 = if mant < 0 {
            (-mant) as u64
        } else {
            mant as u64
        };
        let r = make_dec(neg, mag as u128, scale);
        proof {
            lemma_reduce_bounds(mag as nat, scale as nat);
        }
        match r {
            Some(d) => d,
            None => Dec { neg: false, mag: 0, scale: 0 },  // unreachable: inputs are in bounds
        }
    }

    /// The decimal equal to the machine integer `i`.
    pub fn from_int(i: i32) -> (r: Dec)
        ensures
            r == (Dec {
                neg: i < 0,
                mag: (if i < 0 { -(i as int) } else { i as int }) as u64,
                scale: 0u32,
            }),
            dec_wf(r),
    {
        let neg = i < 0;
        let mag: u64 = if i < 0 {
            (-(i as i64)) as u64
        } else {
            i as u64
        };
        Dec { neg, mag, scale: 0 }
    }

    /// The negation of `self`.
    pub fn negate(self) -> (r: Dec)
        requires
            dec_wf(self),
        ensures
            r == spec_neg(self),
            dec_wf(r),
    {
        if self.mag == 0 {
            self
        } else {
            Dec { neg: !self.neg, ..self }
        }
    }

    /// The sum of `self` and `b`; `None` when its integer part does not fit.
    pub fn add(self, b: Dec) -> (r: Option<Dec>)
        requires
            dec_wf(self),
            dec_wf(b),
        ensures
            r == spec_add(self, b),
            r is Some ==> dec_wf(r->0),
    {
        let a = self;
        let s: u32 = if a.scale >= b.scale {
            a.scale
        } else {
            b.scale
        };
        proof {
            lemma_pow10_mono((s - a.scale) as nat, 12);
            lemma_pow10_mono((s - b.scale) as nat, 12);
            lemma_pow10_38();
            lemma_mul_le(a.mag as nat, pow10((s - a.scale) as nat), MAG_MAX as nat, pow10(12));
            lemma_mul_le(b.mag as nat, pow10((s - b.scale) as nat), MAG_MAX as nat, pow10(12));
        }
        let ma: u128 = (a.mag as u128) * pow10_u128(s - a.scale);
        let mb: u128 = (b.mag as u128) * pow10_u128(s - b.scale);
        if a.neg == b.neg {
            make_dec(a.neg, ma + mb, s)
        } else if ma >= mb {
            make_dec(a.neg, ma - mb, s)
        } else {
            make_dec(b.neg, mb - ma, s)
        }
    }

    /// The difference of `self` and `b`; `None` when it does not fit.
    pub fn sub(self, b: Dec) -> (r: Option<Dec>)
        requires
            dec_wf(self),
            dec_wf(b),
        ensures
            r == spec_sub(self, b),
            r is Some ==> dec_wf(r->0),
    {
        self.add(b.negate())
    }

    /// The product of `self` and `b`, truncated to the representable
    /// precision; `None` when its integer part does not fit.
    pub fn mul(self, b: Dec) -> (r: Option<Dec>)
        requires
            dec_wf(self),
            dec_wf(b),
        ensures
            r == spec_mul(self, b),
            r is Some ==> dec_wf(r->0),
    {
        let a = self;
        proof {
            lemma_mul_le(a.mag as nat, b.mag as nat, MAG_MAX as nat, MAG_MAX as nat);
        }
        let m: u128 = (a.mag as u128) * (b.mag as u128);
        make_dec(a.neg != b.neg, m, a.scale + b.scale)
    }

    /// The quotient of `self` by `b`, truncated toward zero at `SCALE_MAX`
    /// fractional digits; `None` on division by zero or overflow.
    pub fn div(self, b: Dec) -> (r: Option<Dec>)
        requires
            dec_wf(self),
            dec_wf(b),
        ensures
            r == spec_div(self, b),
            r is Some ==> dec_wf(r->0),
    {
        let a = self;
        if b.mag == 0 {
            return None;
        }
        proof {
            lemma_pow10_mono((b.scale + SCALE_MAX) as nat, 24);
            lemma_pow10_mono(a.scale as nat, 12);
            lemma_pow10_mono(0, a.scale as nat);
            lemma_pow10_38();
            lemma_mul_le(
                a.mag as nat,
                pow10((b.scale + SCALE_MAX) as nat),
                MAG_MAX as nat,
                pow10(24),
            );
            lemma_mul_le(b.mag as nat, pow10(a.scale as nat), MAG_MAX as nat, pow10(12));
            lemma_mul_le(1, 1, b.mag as nat, pow10(a.scale as nat));
        }
        let num: u128 = (a.mag as u128) * pow10_u128(b.scale + SCALE_MAX);
        let den: u128 = (b.mag as u128) * pow10_u128(a.scale);
        make_dec(a.neg != b.neg, num / den, SCALE_MAX)
    }

    /// True exactly on the representation of zero.
    pub fn is_zero(self) -> (r: bool)
        ensures
            r == (self.mag == 0),
    {
        self.mag == 0
    }

    /// Is this decimal normalized and in bounds?
    pub fn is_wf(self) -> (r: bool)
        ensures
            r == dec_wf(self),
    {
        self.mag <= MAG_MAX && self.scale <= SCALE_MAX && (self.scale == 0 || self.mag % 10 != 0)
            && (!self.neg || self.mag != 0)
    }
}

} // verus!
