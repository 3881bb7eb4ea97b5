//! A tagged numeric value: a non-negative integer, a negative integer, or a
//! finite binary64 float.
//!
//! Floating-point values are carried as their IEEE-754 bit pattern together
//! with their canonical decimal text, both produced at the crate boundary
//! (see `from_f64_parts`).  All reasoning about a float inside this crate
//! works on the bit pattern with ordinary integer operations; the text is
//! only echoed by the serializer.

use vstd::arithmetic::mul::lemma_mul_inequality;
use vstd::arithmetic::power2::lemma2_to64;
use vstd::arithmetic::power2::lemma2_to64_rest;
use vstd::arithmetic::power2::lemma_pow2_adds;
use vstd::arithmetic::power2::lemma_pow2_strictly_increases;
use vstd::arithmetic::power2::pow2;
use vstd::prelude::*;

verus! {

/// The abstract value of a [`Number`].
pub enum NumberView {
    PosInt(u64),
    NegInt(i64),
    Float { bits: u64, text: Seq<char> },
}

#[derive(Clone, Debug)]
enum N {
    /// A non-negative integer.
    PosInt(u64),
    /// A negative integer (the tag used by integer normalisation for values
    /// below zero; arithmetic mirrors fixed-width wraparound, so other
    /// payloads can arise from extreme operand magnitudes).
    NegInt(i64),
    /// A finite float: its IEEE-754 binary64 bit pattern and its canonical
    /// decimal text.
    Float { bits: u64, text: String },
}

/// A number in a configuration document.
#[derive(Clone, Debug)]
pub struct Number {
    n: N,
}

impl View for N {
    type V = NumberView;

    closed spec fn view(&self) -> NumberView {
        match self {
            N::PosInt(v) => NumberView::PosInt(*v),
            N::NegInt(v) => NumberView::NegInt(*v),
            N::Float { bits, text } => NumberView::Float { bits: *bits, text: text@ },
        }
    }
}

impl View for Number {
    type V = NumberView;

    closed spec fn view(&self) -> NumberView {
        self.n@
    }
}

impl DeepView for Number {
    type V = NumberView;

    open spec fn deep_view(&self) -> NumberView {
        self.view()
    }
}

/// The exponent field of a binary64 bit pattern.
pub open spec fn f64_exp(b: u64) -> u64 {
    (b >> 52) & 0x7ff
}

/// The fraction field of a binary64 bit pattern.
pub open spec fn f64_frac(b: u64) -> u64 {
    b & 0xf_ffff_ffff_ffff
}

/// Whether the bit pattern encodes NaN.
pub open spec fn f64_is_nan(b: u64) -> bool {
    f64_exp(b) == 0x7ff && f64_frac(b) != 0
}

/// Whether the bit pattern encodes a finite value.
pub open spec fn f64_is_finite(b: u64) -> bool {
    f64_exp(b) != 0x7ff
}

/// The magnitude bits: everything but the sign.
pub open spec fn f64_mag(b: u64) -> u64 {
    b & 0x7fff_ffff_ffff_ffff
}

/// A sort key that orders non-NaN bit patterns exactly as IEEE-754 orders
/// the encoded values: negative values reversed, the two zeros collapsing
/// to the same key.
pub open spec fn f64_key(b: u64) -> int {
    if b >> 63 == 1 {
        -(f64_mag(b) as int)
    } else {
        f64_mag(b) as int
    }
}

/// IEEE-754 equality of two non-NaN bit patterns; false whenever either
/// side is NaN.
pub open spec fn f64_eq_bits(a: u64, b: u64) -> bool {
    !f64_is_nan(a) && !f64_is_nan(b) && f64_key(a) == f64_key(b)
}

impl Number {
    /// A non-negative integer.
    pub fn from_u64(v: u64) -> (r: Number)
        ensures
            r@ == NumberView::PosInt(v),
    {
        Number { n: N::PosInt(v) }
    }

    /// A signed integer, tagged negative exactly when it is below zero.
    pub fn from_i64(v: i64) -> (r: Number)
        ensures
            r@ == spec_norm_i64(v),
    {
        if v < 0 {
            Number { n: N::NegInt(v) }
        } else {
            Number { n: N::PosInt(v as u64) }
        }
    }

    /// A non-negative integer, widened.
    pub fn from_u8(v: u8) -> (r: Number)
        ensures
            r@ == NumberView::PosInt(v as u64),
    {
        Number { n: N::PosInt(v as u64) }
    }

    /// A non-negative integer, widened.
    pub fn from_u16(v: u16) -> (r: Number)
        ensures
            r@ == NumberView::PosInt(v as u64),
    {
        Number { n: N::PosInt(v as u64) }
    }

    /// A non-negative integer, widened.
    pub fn from_u32(v: u32) -> (r: Number)
        ensures
            r@ == NumberView::PosInt(v as u64),
    {
        Number { n: N::PosInt(v as u64) }
    }

    /// A non-negative integer, widened.
    pub fn from_usize(v: usize) -> (r: Number)
        ensures
            r@ == NumberView::PosInt(v as u64),
    {
        Number { n: N::PosInt(v as u64) }
    }

    /// A signed integer, widened.
    pub fn from_i8(v: i8) -> (r: Number)
        ensures
            r@ == spec_norm_i64(v as i64),
    {
        Number::from_i64(v as i64)
    }

    /// A signed integer, widened.
    pub fn from_i16(v: i16) -> (r: Number)
        ensures
            r@ == spec_norm_i64(v as i64),
    {
        Number::from_i64(v as i64)
    }

    /// A signed integer, widened.
    pub fn from_i32(v: i32) -> (r: Number)
        ensures
            r@ == spec_norm_i64(v as i64),
    {
        Number::from_i64(v as i64)
    }

    /// A signed integer, widened.
    pub fn from_isize(v: isize) -> (r: Number)
        ensures
            r@ == spec_norm_i64(v as i64),
    {
        Number::from_i64(v as i64)
    }

    /// A float, given as its IEEE-754 binary64 bit pattern and its decimal
    /// text.  Returns `None` exactly when the bits encode an infinity or
    /// NaN, mirroring the rule that only finite floats are representable.
    ///
    /// The caller at the crate boundary is expected to pass the shortest
    /// round-trippable decimal text of the same value (`ryu`); the text is
    /// held verbatim for the serializer.
    pub fn from_f64_parts(bits: u64, text: String) -> (r: Option<Number>)
        ensures
            f64_is_finite(bits) ==> (r matches Some(m) && m@ == (NumberView::Float {
                bits,
                text: text@,
            })),
            !f64_is_finite(bits) ==> r is None,
    {
        if (bits >> 52) & 0x7ff != 0x7ff {
            Some(Number { n: N::Float { bits, text } })
        } else {
            None
        }
    }

    /// The exact integer value when this number is an integer in signed
    /// 64-bit range, and `None` otherwise.
    pub fn as_i64(&self) -> (r: Option<i64>)
        ensures
            r == spec_as_i64(self@),
    {
        match &self.n {
            N::PosInt(v) => {
                if *v <= 0x7fff_ffff_ffff_ffffu64 {
                    Some(*v as i64)
                } else {
                    None
                }
            },
            N::NegInt(v) => Some(*v),
            N::Float { .. } => None,
        }
    }

    /// The exact integer value when this number is a non-negative integer,
    /// and `None` otherwise.
    pub fn as_u64(&self) -> (r: Option<u64>)
        ensures
            r == spec_as_u64(self@),
    {
        match &self.n {
            N::PosInt(v) => Some(*v),
            N::NegInt(_) => None,
            N::Float { .. } => None,
        }
    }

    /// True exactly when this number is the float variant; `float_bits`
    /// then returns its bit pattern.
    pub fn is_f64(&self) -> (r: bool)
        ensures
            r == (self@ is Float),
    {
        match &self.n {
            N::Float { .. } => true,
            _ => false,
        }
    }

    /// True exactly when `as_i64` returns a value.
    pub fn is_i64(&self) -> (r: bool)
        ensures
            r == (spec_as_i64(self@) is Some),
    {
        match &self.n {
            N::PosInt(v) => *v <= 0x7fff_ffff_ffff_ffffu64,
            N::NegInt(_) => true,
            N::Float { .. } => false,
        }
    }

    /// True exactly when `as_u64` returns a value.
    pub fn is_u64(&self) -> (r: bool)
        ensures
            r == (spec_as_u64(self@) is Some),
    {
        match &self.n {
            N::PosInt(_) => true,
            N::NegInt(_) => false,
            N::Float { .. } => false,
        }
    }

    /// The bit pattern of the float variant; `None` for the integer
    /// variants.
    pub fn float_bits(&self) -> (r: Option<u64>)
        ensures
            r == (match self@ {
                NumberView::Float { bits, .. } => Some(bits),
                _ => None::<u64>,
            }),
    {
        match &self.n {
            N::Float { bits, .. } => Some(*bits),
            _ => None,
        }
    }
}

/// The tag a signed 64-bit integer receives: negative values keep the
/// negative-integer tag, the rest become non-negative integers.
pub open spec fn spec_norm_i64(v: i64) -> NumberView {
    if v < 0 {
        NumberView::NegInt(v)
    } else {
        NumberView::PosInt(v as u64)
    }
}

/// What `as_i64` returns for each abstract value.
pub open spec fn spec_as_i64(v: NumberView) -> Option<i64> {
    match v {
        NumberView::PosInt(n) => if n <= i64::MAX as u64 {
            Some(n as i64)
        } else {
            None
        },
        NumberView::NegInt(n) => Some(n),
        NumberView::Float { .. } => None,
    }
}

/// What `as_u64` returns for each abstract value.
pub open spec fn spec_as_u64(v: NumberView) -> Option<u64> {
    match v {
        NumberView::PosInt(n) => Some(n),
        _ => None,
    }
}

/// Packs a normalised significand `m` in `[2^52, 2^53)` scaled by `2^p`
/// into a binary64 bit pattern, rounding to nearest, ties to even, from
/// the `round` (first dropped bit) and `sticky` (any later dropped bit)
/// flags.
pub open spec fn spec_assemble(m: u64, p: int, round: bool, sticky: bool) -> u64 {
    let m2 = if round && (sticky || m & 1 == 1) {
        (m + 1) as u64
    } else {
        m
    };
    if m2 == 0x20000000000000 {
        ((p + 53 + 1023) as u64) << 52u64
    } else {
        (((p + 52 + 1023) as u64) << 52u64) | (m2 & 0xf_ffff_ffff_ffff)
    }
}

/// Halves an oversized significand until it fits in 53 bits, collecting
/// the dropped bits into the rounding flags.  The value represented is
/// `m * 2^p`.
pub open spec fn spec_norm_down(m: u64, p: int, round: bool, sticky: bool) -> u64
    decreases m,
{
    if m >= 0x20000000000000 {
        spec_norm_down(m / 2, p + 1, m % 2 == 1, sticky || round)
    } else {
        spec_assemble(m, p, round, sticky)
    }
}

/// Doubles an undersized significand until it reaches 53 bits.  The value
/// represented is `m * 2^p`; such doubling is exact.
pub open spec fn spec_norm_up(m: u64, p: int) -> u64
    decreases 0x20000000000000 - m,
{
    if m == 0 {
        0
    } else if m < 0x10000000000000 {
        spec_norm_up((m * 2) as u64, p - 1)
    } else {
        spec_assemble(m, p, false, false)
    }
}

/// The binary64 bit pattern of an unsigned 64-bit integer converted to
/// float: round to nearest, ties to even.
pub open spec fn cast_u64_bits(n: u64) -> u64 {
    if n == 0 {
        0
    } else if n >= 0x20000000000000 {
        spec_norm_down(n, 0, false, false)
    } else {
        spec_norm_up(n, 0)
    }
}

/// The binary64 bit pattern of a signed 64-bit integer converted to
/// float: the conversion of the magnitude, with the sign bit set for
/// negative values.
pub open spec fn cast_i64_bits(v: i64) -> u64 {
    if v >= 0 {
        cast_u64_bits(v as u64)
    } else {
        0x8000_0000_0000_0000u64 | cast_u64_bits((-(v as int)) as u64)
    }
}

proof fn lemma_assemble_finite(m: u64, p: int, round: bool, sticky: bool)
    requires
        0x10000000000000 <= m < 0x20000000000000,
        -52 <= p <= 11,
    ensures
        f64_is_finite(spec_assemble(m, p, round, sticky)),
        spec_assemble(m, p, round, sticky) >> 63 == 0,
{
    let m2 = if round && (sticky || m & 1 == 1) {
        (m + 1) as u64
    } else {
        m
    };
    if m2 == 0x20000000000000 {
        let e = (p + 53 + 1023) as u64;
        assert(1024 <= e <= 1087);
        assert((((e << 52u64) >> 52) & 0x7ff) == e && (e << 52u64) >> 63 == 0) by (bit_vector)
            requires
                1024 <= e <= 1087,
        ;
    } else {
        let e = (p + 52 + 1023) as u64;
        let f = m2 & 0xf_ffff_ffff_ffff;
        assert(1023 <= e <= 1086);
        assert((m2 & 0xf_ffff_ffff_ffff) <= 0xf_ffff_ffff_ffff) by (bit_vector);
        assert(((((e << 52u64) | f) >> 52) & 0x7ff) == e && ((e << 52u64) | f) >> 63 == 0)
            by (bit_vector)
            requires
                1023 <= e <= 1086,
                f <= 0xf_ffff_ffff_ffff,
        ;
    }
}

proof fn lemma_down_step(m: u64, p: int)
    requires
        0x20000000000000 <= m,
        0 <= p,
        (m as nat) * pow2(p as nat) < pow2(64),
    ensures
        ((m / 2) as nat) * pow2((p + 1) as nat) < pow2(64),
        p + 1 <= 11,
{
    let h = m / 2;
    lemma_pow2_adds(p as nat, 1);
    lemma2_to64();
    assert(pow2((p + 1) as nat) == 2 * pow2(p as nat));
    assert((h as nat) * (2 * pow2(p as nat)) <= (m as nat) * pow2(p as nat)) by {
        assert(h as nat * 2 <= m as nat);
        lemma_mul_inequality((h as nat * 2) as int, m as int, pow2(p as nat) as int);
        assert(h as nat * 2 * pow2(p as nat) == h as nat * (2 * pow2(p as nat)))
            by (nonlinear_arith);
    }
    lemma2_to64_rest();
    assert(pow2(53) == 0x20000000000000);
    assert(pow2(53) * pow2(p as nat) <= (m as nat) * pow2(p as nat)) by {
        lemma_mul_inequality(pow2(53) as int, m as int, pow2(p as nat) as int);
    }
    lemma_pow2_adds(53, p as nat);
    if 53 + p >= 64 {
        if 53 + p > 64 {
            lemma_pow2_strictly_increases(64, (53 + p) as nat);
        }
        assert(false);
    }
}

proof fn lemma_down_exit(m: u64, p: int)
    requires
        0x10000000000000 <= m,
        0 <= p,
        (m as nat) * pow2(p as nat) < pow2(64),
    ensures
        p <= 11,
{
    lemma2_to64_rest();
    assert(pow2(52) == 0x10000000000000);
    assert(pow2(52) * pow2(p as nat) <= (m as nat) * pow2(p as nat)) by {
        lemma_mul_inequality(pow2(52) as int, m as int, pow2(p as nat) as int);
    }
    lemma_pow2_adds(52, p as nat);
    if 52 + p >= 64 {
        if 52 + p > 64 {
            lemma_pow2_strictly_increases(64, (52 + p) as nat);
        }
        assert(false);
    }
}

proof fn lemma_norm_down_finite(m: u64, p: int, round: bool, sticky: bool)
    requires
        0x10000000000000 <= m,
        0 <= p,
        (m as nat) * pow2(p as nat) < pow2(64),
    ensures
        f64_is_finite(spec_norm_down(m, p, round, sticky)),
        spec_norm_down(m, p, round, sticky) >> 63 == 0,
    decreases m,
{
    if m >= 0x20000000000000 {
        lemma_down_step(m, p);
        lemma_norm_down_finite(m / 2, p + 1, m % 2 == 1, sticky || round);
    } else {
        lemma_down_exit(m, p);
        lemma_assemble_finite(m, p, round, sticky);
    }
}

proof fn lemma_up_step(m: u64, p: int)
    requires
        1 <= m < 0x10000000000000,
        -52 <= p <= 0,
        pow2((-p) as nat) <= m as nat,
    ensures
        -52 <= p - 1,
        pow2((-(p - 1)) as nat) <= (m * 2) as nat,
        m * 2 < 0x20000000000000,
{
    lemma2_to64_rest();
    assert(pow2(52) == 0x10000000000000);
    if -p >= 52 {
        if -p > 52 {
            lemma_pow2_strictly_increases(52, (-p) as nat);
        }
        assert(false);
    }
    lemma_pow2_adds((-p) as nat, 1);
    lemma2_to64();
    assert(pow2((-(p - 1)) as nat) == 2 * pow2((-p) as nat));
}

proof fn lemma_norm_up_finite(m: u64, p: int)
    requires
        1 <= m < 0x20000000000000,
        -52 <= p <= 0,
        pow2((-p) as nat) <= m as nat,
    ensures
        f64_is_finite(spec_norm_up(m, p)),
        spec_norm_up(m, p) >> 63 == 0,
    decreases 0x20000000000000 - m,
{
    if m < 0x10000000000000 {
        lemma_up_step(m, p);
        lemma_norm_up_finite((m * 2) as u64, p - 1);
    } else {
        lemma_assemble_finite(m, p, false, false);
    }
}

/// The float a 64-bit unsigned integer converts to is finite and
/// non-negative.
pub proof fn lemma_cast_u64_finite(n: u64)
    ensures
        f64_is_finite(cast_u64_bits(n)),
        cast_u64_bits(n) >> 63 == 0,
{
    lemma2_to64();
    if n == 0 {
        assert(((0u64 >> 52) & 0x7ff) == 0 && 0u64 >> 63 == 0) by (bit_vector);
    } else if n >= 0x20000000000000 {
        assert((n as nat) * pow2(0) < pow2(64));
        lemma_norm_down_finite(n, 0, false, false);
    } else {
        lemma_norm_up_finite(n, 0);
    }
}

/// The float a 64-bit signed integer converts to is finite.
pub proof fn lemma_cast_i64_finite(v: i64)
    ensures
        f64_is_finite(cast_i64_bits(v)),
{
    if v >= 0 {
        lemma_cast_u64_finite(v as u64);
    } else {
        let mg = (-(v as int)) as u64;
        lemma_cast_u64_finite(mg);
        let c = cast_u64_bits(mg);
        assert(c >> 63 == 0 ==> (((0x8000_0000_0000_0000u64 | c) >> 52) & 0x7ff) == ((c >> 52)
            & 0x7ff)) by (bit_vector);
    }
}

fn assemble(m: u64, p: i64, round: bool, sticky: bool) -> (r: u64)
    requires
        0x10000000000000 <= m < 0x20000000000000,
        -52 <= p <= 11,
    ensures
        r == spec_assemble(m, p as int, round, sticky),
{
    let m2: u64 = if round && (sticky || m & 1 == 1) {
        m + 1
    } else {
        m
    };
    if m2 == 0x20000000000000 {
        ((p + 53 + 1023) as u64) << 52u64
    } else {
        (((p + 52 + 1023) as u64) << 52u64) | (m2 & 0xf_ffff_ffff_ffff)
    }
}

fn norm_down(m: u64, p: i64, round: bool, sticky: bool) -> (r: u64)
    requires
        0x10000000000000 <= m,
        0 <= p <= 11,
        (m as nat) * pow2(p as nat) < pow2(64),
    ensures
        r == spec_norm_down(m, p as int, round, sticky),
    decreases m,
{
    if m >= 0x20000000000000 {
        proof {
            lemma_down_step(m, p as int);
        }
        norm_down(m / 2, p + 1, m % 2 == 1, sticky || round)
    } else {
        proof {
            lemma_down_exit(m, p as int);
        }
        assemble(m, p, round, sticky)
    }
}

fn norm_up(m: u64, p: i64) -> (r: u64)
    requires
        1 <= m < 0x20000000000000,
        -52 <= p <= 0,
        pow2((-p) as nat) <= m as nat,
    ensures
        r == spec_norm_up(m, p as int),
    decreases 0x20000000000000 - m,
{
    if m < 0x10000000000000 {
        proof {
            lemma_up_step(m, p as int);
        }
        norm_up(m * 2, p - 1)
    } else {
        assemble(m, p, false, false)
    }
}

/// The bit pattern of `n as f64`, computed with integer operations.
fn cast_u64(n: u64) -> (r: u64)
    ensures
        r == cast_u64_bits(n),
{
    if n == 0 {
        0
    } else if n >= 0x20000000000000 {
        proof {
            lemma2_to64();
            assert((n as nat) * pow2(0) < pow2(64));
        }
        norm_down(n, 0, false, false)
    } else {
        proof {
            lemma2_to64();
        }
        norm_up(n, 0)
    }
}

/// The value every variant coerces to for mixed comparisons: the float
/// bit pattern of the number.
pub open spec fn spec_to_bits(v: NumberView) -> u64 {
    match v {
        NumberView::PosInt(n) => cast_u64_bits(n),
        NumberView::NegInt(n) => cast_i64_bits(n),
        NumberView::Float { bits, .. } => bits,
    }
}

/// IEEE-754 comparison of two bit patterns: `None` whenever either side
/// is NaN.
pub open spec fn f64_cmp_bits(a: u64, b: u64) -> Option<core::cmp::Ordering> {
    if f64_is_nan(a) || f64_is_nan(b) {
        None
    } else if f64_key(a) < f64_key(b) {
        Some(core::cmp::Ordering::Less)
    } else if f64_key(a) == f64_key(b) {
        Some(core::cmp::Ordering::Equal)
    } else {
        Some(core::cmp::Ordering::Greater)
    }
}

/// What `==` means on numbers: exact comparison when both sides carry the
/// same integer tag, float comparison of the coerced values otherwise.
pub open spec fn num_eq(a: NumberView, b: NumberView) -> bool {
    match (a, b) {
        (NumberView::PosInt(x), NumberView::PosInt(y)) => x == y,
        (NumberView::NegInt(x), NumberView::NegInt(y)) => x == y,
        _ => f64_eq_bits(spec_to_bits(a), spec_to_bits(b)),
    }
}

/// What `partial_cmp` means on numbers, in the same pattern as [`num_eq`].
pub open spec fn num_cmp(a: NumberView, b: NumberView) -> Option<core::cmp::Ordering> {
    match (a, b) {
        (NumberView::PosInt(x), NumberView::PosInt(y)) => if x < y {
            Some(core::cmp::Ordering::Less)
        } else if x == y {
            Some(core::cmp::Ordering::Equal)
        } else {
            Some(core::cmp::Ordering::Greater)
        },
        (NumberView::NegInt(x), NumberView::NegInt(y)) => if x < y {
            Some(core::cmp::Ordering::Less)
        } else if x == y {
            Some(core::cmp::Ordering::Equal)
        } else {
            Some(core::cmp::Ordering::Greater)
        },
        _ => f64_cmp_bits(spec_to_bits(a), spec_to_bits(b)),
    }
}

/// The key equal numbers hash by: the coerced float bit pattern, with
/// both zeros collapsed onto the positive zero pattern.
pub open spec fn spec_hash_key(v: NumberView) -> u64 {
    let b = spec_to_bits(v);
    if f64_mag(b) == 0 {
        0
    } else {
        b
    }
}

/// The bit pattern of `v as f64`, computed with integer operations.
fn cast_i64(v: i64) -> (r: u64)
    ensures
        r == cast_i64_bits(v),
{
    if v >= 0 {
        cast_u64(v as u64)
    } else {
        let mg: u64 = if v == i64::MIN {
            0x8000_0000_0000_0000u64
        } else {
            (-v) as u64
        };
        assert(mg == (-(v as int)) as u64);
        0x8000_0000_0000_0000u64 | cast_u64(mg)
    }
}

/// IEEE-754 equality of two bit patterns, executed on the bits.
fn bits_eq(x: u64, y: u64) -> (r: bool)
    ensures
        r == f64_eq_bits(x, y),
{
    proof {
        assert((x & 0x7fff_ffff_ffff_ffff) <= 0x7fff_ffff_ffff_ffff) by (bit_vector);
        assert((y & 0x7fff_ffff_ffff_ffff) <= 0x7fff_ffff_ffff_ffff) by (bit_vector);
    }
    let x_nan = (x >> 52) & 0x7ff == 0x7ff && x & 0xf_ffff_ffff_ffff != 0;
    let y_nan = (y >> 52) & 0x7ff == 0x7ff && y & 0xf_ffff_ffff_ffff != 0;
    if x_nan || y_nan {
        false
    } else {
        let mx = x & 0x7fff_ffff_ffff_ffff;
        let my = y & 0x7fff_ffff_ffff_ffff;
        if (x >> 63 == 1) == (y >> 63 == 1) {
            mx == my
        } else {
            mx == 0 && my == 0
        }
    }
}

/// IEEE-754 comparison of two bit patterns, executed on the bits.
fn bits_cmp(x: u64, y: u64) -> (r: Option<core::cmp::Ordering>)
    ensures
        r == f64_cmp_bits(x, y),
{
    proof {
        assert((x & 0x7fff_ffff_ffff_ffff) <= 0x7fff_ffff_ffff_ffff) by (bit_vector);
        assert((y & 0x7fff_ffff_ffff_ffff) <= 0x7fff_ffff_ffff_ffff) by (bit_vector);
    }
    let x_nan = (x >> 52) & 0x7ff == 0x7ff && x & 0xf_ffff_ffff_ffff != 0;
    let y_nan = (y >> 52) & 0x7ff == 0x7ff && y & 0xf_ffff_ffff_ffff != 0;
    if x_nan || y_nan {
        None
    } else {
        let kx: i128 = if x >> 63 == 1 {
            -((x & 0x7fff_ffff_ffff_ffff) as i128)
        } else {
            (x & 0x7fff_ffff_ffff_ffff) as i128
        };
        let ky: i128 = if y >> 63 == 1 {
            -((y & 0x7fff_ffff_ffff_ffff) as i128)
        } else {
            (y & 0x7fff_ffff_ffff_ffff) as i128
        };
        if kx < ky {
            Some(core::cmp::Ordering::Less)
        } else if kx == ky {
            Some(core::cmp::Ordering::Equal)
        } else {
            Some(core::cmp::Ordering::Greater)
        }
    }
}

impl Number {
    /// The bit pattern of this number coerced to a float: the stored bits
    /// of the float variant, the rounded conversion of an integer variant.
    pub fn as_f64_bits(&self) -> (r: u64)
        ensures
            r == spec_to_bits(self@),
    {
        match &self.n {
            N::PosInt(v) => cast_u64(*v),
            N::NegInt(v) => cast_i64(*v),
            N::Float { bits, .. } => *bits,
        }
    }

    /// The key this number hashes by.  Numbers that compare equal have
    /// equal hash keys (see [`lemma_number_eq_hash_consistent`]).
    pub fn hash_key(&self) -> (r: u64)
        ensures
            r == spec_hash_key(self@),
    {
        let b = self.as_f64_bits();
        if b & 0x7fff_ffff_ffff_ffff == 0 {
            0
        } else {
            b
        }
    }
}

impl PartialEq for Number {
    fn eq(&self, other: &Number) -> (r: bool) {
        match (&self.n, &other.n) {
            (N::PosInt(a), N::PosInt(b)) => *a == *b,
            (N::NegInt(a), N::NegInt(b)) => *a == *b,
            _ => bits_eq(self.as_f64_bits(), other.as_f64_bits()),
        }
    }
}

impl vstd::std_specs::cmp::PartialEqSpecImpl for Number {
    open spec fn obeys_eq_spec() -> bool {
        true
    }

    open spec fn eq_spec(&self, other: &Number) -> bool {
        num_eq(self@, other@)
    }
}

impl PartialOrd for Number {
    fn partial_cmp(&self, other: &Number) -> (r: Option<core::cmp::Ordering>) {
        match (&self.n, &other.n) {
            (N::PosInt(a), N::PosInt(b)) => {
                if *a < *b {
                    Some(core::cmp::Ordering::Less)
                } else if *a == *b {
                    Some(core::cmp::Ordering::Equal)
                } else {
                    Some(core::cmp::Ordering::Greater)
                }
            },
            (N::NegInt(a), N::NegInt(b)) => {
                if *a < *b {
                    Some(core::cmp::Ordering::Less)
                } else if *a == *b {
                    Some(core::cmp::Ordering::Equal)
                } else {
                    Some(core::cmp::Ordering::Greater)
                }
            },
            _ => bits_cmp(self.as_f64_bits(), other.as_f64_bits()),
        }
    }
}

impl vstd::std_specs::cmp::PartialOrdSpecImpl for Number {
    open spec fn obeys_partial_cmp_spec() -> bool {
        true
    }

    open spec fn partial_cmp_spec(&self, other: &Number) -> Option<core::cmp::Ordering> {
        num_cmp(self@, other@)
    }
}

/// Number consistency: a non-negative integer compares equal to its own
/// float coercion, whatever text that float carries, and the two hash
/// identically.
pub proof fn lemma_number_int_float_consistent_u64(n: u64, t: Seq<char>)
    ensures
        num_eq(NumberView::PosInt(n), (NumberView::Float { bits: cast_u64_bits(n), text: t })),
        spec_hash_key(NumberView::PosInt(n)) == spec_hash_key(
            (NumberView::Float { bits: cast_u64_bits(n), text: t }),
        ),
{
    lemma_cast_u64_finite(n);
}

/// Number consistency: a signed integer compares equal to its own float
/// coercion, whatever text that float carries, and the two hash
/// identically.
pub proof fn lemma_number_int_float_consistent_i64(v: i64, t: Seq<char>)
    ensures
        num_eq(spec_norm_i64(v), (NumberView::Float { bits: cast_i64_bits(v), text: t })),
        spec_hash_key(spec_norm_i64(v)) == spec_hash_key(
            (NumberView::Float { bits: cast_i64_bits(v), text: t }),
        ),
{
    lemma_cast_i64_finite(v);
    if v >= 0 {
        assert(spec_to_bits(spec_norm_i64(v)) == cast_i64_bits(v));
    }
}

/// Number consistency: the floats with the positive-zero and the
/// negative-zero bit patterns compare equal and hash identically.
pub proof fn lemma_number_zero_signs_consistent(t1: Seq<char>, t2: Seq<char>)
    ensures
        num_eq(
            (NumberView::Float { bits: 0u64, text: t1 }),
            (NumberView::Float { bits: 0x8000_0000_0000_0000u64, text: t2 }),
        ),
        spec_hash_key((NumberView::Float { bits: 0u64, text: t1 })) == spec_hash_key(
            (NumberView::Float { bits: 0x8000_0000_0000_0000u64, text: t2 }),
        ),
{
    assert(((0u64 >> 52) & 0x7ff) != 0x7ff) by (bit_vector);
    assert(((0x8000_0000_0000_0000u64 >> 52) & 0x7ff) != 0x7ff) by (bit_vector);
    assert((0u64 & 0x7fff_ffff_ffff_ffff) == 0) by (bit_vector);
    assert((0x8000_0000_0000_0000u64 & 0x7fff_ffff_ffff_ffff) == 0) by (bit_vector);
    assert((0u64 >> 63) == 0) by (bit_vector);
}

/// Whether this value is one of the two integer variants.
pub open spec fn num_is_int(v: NumberView) -> bool {
    !(v is Float)
}

/// The integer value of an integer variant.
pub open spec fn int_val(v: NumberView) -> int {
    match v {
        NumberView::PosInt(n) => n as int,
        NumberView::NegInt(x) => x as int,
        NumberView::Float { .. } => 0,
    }
}

/// The absolute value of a signed 64-bit integer, as an unsigned one.
pub open spec fn spec_i64_mag(x: i64) -> u64 {
    if x >= 0 {
        x as u64
    } else {
        (-(x as int)) as u64
    }
}

/// The magnitude of the integer value of an integer variant.
pub open spec fn view_mag(v: NumberView) -> u64 {
    match v {
        NumberView::PosInt(n) => n,
        NumberView::NegInt(x) => spec_i64_mag(x),
        NumberView::Float { .. } => 0,
    }
}

/// Whether the integer value of an integer variant is below zero.
pub open spec fn view_neg(v: NumberView) -> bool {
    match v {
        NumberView::NegInt(x) => x < 0,
        _ => false,
    }
}

/// The remainder of truncated division, as the `%` of the machine: the
/// magnitude remainder, carrying the dividend's sign.
pub open spec fn spec_i64_trunc_rem(x: i64, y: i64) -> i64
    recommends
        y != 0,
{
    let m = spec_i64_mag(x) % spec_i64_mag(y);
    if x < 0 {
        (-(m as int)) as i64
    } else {
        m as i64
    }
}

/// What negation returns: integer negation with fixed-width wraparound
/// and the tag rules of the coercion (a non-negative integer turns
/// negative-tagged; a negative integer that cannot stay negative is
/// promoted); a float flips its sign bit and its leading minus.
pub open spec fn spec_neg(v: NumberView) -> NumberView {
    match v {
        NumberView::PosInt(n) => NumberView::NegInt(
            vstd::wrapping::i64_specs::wrapping_sub(0, n as i64),
        ),
        NumberView::NegInt(x) => {
            let w = vstd::wrapping::i64_specs::wrapping_sub(0, x);
            if w < 0 {
                NumberView::NegInt(w)
            } else {
                NumberView::PosInt(w as u64)
            }
        },
        NumberView::Float { bits, text } => NumberView::Float {
            bits: bits ^ 0x8000_0000_0000_0000,
            text: spec_neg_text(text),
        },
    }
}

/// The decimal text of a negated float: toggle the leading minus sign.
pub open spec fn spec_neg_text(t: Seq<char>) -> Seq<char> {
    if t.len() > 0 && t[0] == '-' {
        t.skip(1)
    } else {
        seq!['-'] + t
    }
}

/// What addition returns when both operands are integer variants, and
/// `None` when a float is involved (the float sum is produced at the
/// crate boundary).  Integer sums wrap around at fixed width.
pub open spec fn spec_add(a: NumberView, b: NumberView) -> Option<NumberView> {
    match (a, b) {
        (NumberView::PosInt(x), NumberView::PosInt(y)) => Some(
            NumberView::PosInt(vstd::wrapping::u64_specs::wrapping_add(x, y)),
        ),
        (NumberView::PosInt(x), NumberView::NegInt(y)) => Some(
            spec_norm_i64(vstd::wrapping::i64_specs::wrapping_add(x as i64, y)),
        ),
        (NumberView::NegInt(x), NumberView::NegInt(y)) => Some(
            spec_norm_i64(vstd::wrapping::i64_specs::wrapping_add(x, y)),
        ),
        (NumberView::NegInt(x), NumberView::PosInt(y)) => Some(
            spec_norm_i64(vstd::wrapping::i64_specs::wrapping_add(x, y as i64)),
        ),
        _ => None,
    }
}

/// What subtraction returns when both operands are integer variants:
/// two non-negative integers subtract unsigned when that cannot go below
/// zero and switch to signed arithmetic otherwise; every other integer
/// pairing subtracts signed, wrapping at fixed width.  `None` when a
/// float is involved.
pub open spec fn spec_sub(a: NumberView, b: NumberView) -> Option<NumberView> {
    match (a, b) {
        (NumberView::PosInt(x), NumberView::PosInt(y)) => if x < y {
            Some(
                NumberView::NegInt(vstd::wrapping::i64_specs::wrapping_sub(x as i64, y as i64)),
            )
        } else {
            Some(NumberView::PosInt((x - y) as u64))
        },
        (NumberView::PosInt(x), NumberView::NegInt(y)) => Some(
            spec_norm_i64(vstd::wrapping::i64_specs::wrapping_sub(x as i64, y)),
        ),
        (NumberView::NegInt(x), NumberView::NegInt(y)) => Some(
            spec_norm_i64(vstd::wrapping::i64_specs::wrapping_sub(x, y)),
        ),
        (NumberView::NegInt(x), NumberView::PosInt(y)) => Some(
            spec_norm_i64(vstd::wrapping::i64_specs::wrapping_sub(x, y as i64)),
        ),
        _ => None,
    }
}

/// What multiplication returns when both operands are integer variants,
/// wrapping at fixed width; `None` when a float is involved.
pub open spec fn spec_mul(a: NumberView, b: NumberView) -> Option<NumberView> {
    match (a, b) {
        (NumberView::PosInt(x), NumberView::PosInt(y)) => Some(
            NumberView::PosInt(vstd::wrapping::u64_specs::wrapping_mul(x, y)),
        ),
        (NumberView::PosInt(x), NumberView::NegInt(y)) => Some(
            spec_norm_i64(vstd::wrapping::i64_specs::wrapping_mul(x as i64, y)),
        ),
        (NumberView::NegInt(x), NumberView::NegInt(y)) => Some(
            spec_norm_i64(vstd::wrapping::i64_specs::wrapping_mul(x, y)),
        ),
        (NumberView::NegInt(x), NumberView::PosInt(y)) => Some(
            spec_norm_i64(vstd::wrapping::i64_specs::wrapping_mul(x, y as i64)),
        ),
        _ => None,
    }
}

/// What the remainder returns when both operands are integer variants;
/// `None` when a float is involved.  The divisor must not be zero.
pub open spec fn spec_rem(a: NumberView, b: NumberView) -> Option<NumberView> {
    match (a, b) {
        (NumberView::PosInt(x), NumberView::PosInt(y)) => Some(
            NumberView::PosInt((x as int % y as int) as u64),
        ),
        (NumberView::PosInt(x), NumberView::NegInt(y)) => Some(
            spec_norm_i64(spec_i64_trunc_rem(x as i64, y)),
        ),
        (NumberView::NegInt(x), NumberView::NegInt(y)) => Some(
            spec_norm_i64(spec_i64_trunc_rem(x, y)),
        ),
        (NumberView::NegInt(x), NumberView::PosInt(y)) => Some(
            spec_norm_i64(spec_i64_trunc_rem(x, y as i64)),
        ),
        _ => None,
    }
}

/// Whether the remainder of the two numbers is computed here: a float
/// operand is completed at the boundary instead, and a zero integer
/// divisor is rejected.
pub open spec fn rem_defined(a: NumberView, b: NumberView) -> bool {
    num_is_int(a) && num_is_int(b) ==> int_val(b) != 0
}

/// What division returns: when both operands are integer variants and
/// the divisor exactly divides the dividend, the mathematical quotient
/// re-coerced to the appropriate integer variant; `None` otherwise (the
/// quotient is then a float, produced at the crate boundary).  An exact
/// negative quotient below the signed range also falls back to the float
/// path.
pub open spec fn spec_div(a: NumberView, b: NumberView) -> Option<NumberView> {
    if !num_is_int(a) || !num_is_int(b) {
        None
    } else {
        let mx = view_mag(a);
        let my = view_mag(b);
        if my == 0 {
            None
        } else if mx % my != 0 {
            None
        } else {
            let q = mx / my;
            if view_neg(a) == view_neg(b) || q == 0 {
                Some(NumberView::PosInt(q))
            } else if q <= 0x8000_0000_0000_0000 {
                Some(NumberView::NegInt((-(q as int)) as i64))
            } else {
                None
            }
        }
    }
}

/// Equality and ordering agree: two numbers compare as equal exactly
/// when ordering places them together.
pub proof fn lemma_number_eq_cmp_consistent(a: NumberView, b: NumberView)
    ensures
        num_eq(a, b) <==> num_cmp(a, b) == Some(core::cmp::Ordering::Equal),
{
}

/// Equal numbers hash identically: `num_eq` implies equal hash keys.
pub proof fn lemma_number_eq_hash_consistent(a: NumberView, b: NumberView)
    requires
        num_eq(a, b),
    ensures
        spec_hash_key(a) == spec_hash_key(b),
{
    let x = spec_to_bits(a);
    let y = spec_to_bits(b);
    match (a, b) {
        (NumberView::PosInt(p), NumberView::PosInt(q)) => {
        },
        (NumberView::NegInt(p), NumberView::NegInt(q)) => {
        },
        _ => {
            if f64_mag(x) == 0 || f64_mag(y) == 0 {
                assert(f64_mag(x) == 0 && f64_mag(y) == 0);
            } else {
                assert(x >> 63 == y >> 63 && (x & 0x7fff_ffff_ffff_ffff) == (y
                    & 0x7fff_ffff_ffff_ffff) ==> x == y) by (bit_vector);
                assert(x >> 63 == 0 || x >> 63 == 1) by (bit_vector);
                assert(y >> 63 == 0 || y >> 63 == 1) by (bit_vector);
                assert(x == y);
            }
        },
    }
}

/// The decimal digits of a non-negative integer, most significant first.
pub open spec fn dec_digits(n: nat) -> Seq<char>
    decreases n,
{
    if n < 10 {
        seq![digit_char(n)]
    } else {
        dec_digits(n / 10) + seq![digit_char(n % 10)]
    }
}

/// The character of one decimal digit.
pub open spec fn digit_char(d: nat) -> char {
    if d == 0 {
        '0'
    } else if d == 1 {
        '1'
    } else if d == 2 {
        '2'
    } else if d == 3 {
        '3'
    } else if d == 4 {
        '4'
    } else if d == 5 {
        '5'
    } else if d == 6 {
        '6'
    } else if d == 7 {
        '7'
    } else if d == 8 {
        '8'
    } else {
        '9'
    }
}

/// The canonical text of a number: plain decimal digits for the integer
/// variants (with a leading minus for values below zero), the stored
/// decimal text for a float.
pub open spec fn spec_num_text(v: NumberView) -> Seq<char> {
    match v {
        NumberView::PosInt(n) => dec_digits(n as nat),
        NumberView::NegInt(x) => if x < 0 {
            seq!['-'] + dec_digits(spec_i64_mag(x) as nat)
        } else {
            dec_digits(x as nat)
        },
        NumberView::Float { text, .. } => text,
    }
}

/// Relies on `itoa::Buffer::format` for `u64`: the plain decimal digits
/// of the integer, exactly as the standard library's `Display` writes
/// them.
#[verifier::external_body]
fn format_u64(n: u64) -> (r: String)
    ensures
        r@ == dec_digits(n as nat),
{
    let mut buf = itoa::Buffer::new();
    buf.format(n).to_owned()
}

/// The absolute value of a signed 64-bit integer, as an unsigned one.
fn i64_mag(x: i64) -> (r: u64)
    ensures
        r == spec_i64_mag(x),
{
    if x == i64::MIN {
        0x8000_0000_0000_0000u64
    } else if x < 0 {
        (-x) as u64
    } else {
        x as u64
    }
}

/// The remainder of truncated division on signed 64-bit integers.
fn i64_trunc_rem(x: i64, y: i64) -> (r: i64)
    requires
        y != 0,
    ensures
        r == spec_i64_trunc_rem(x, y),
{
    let mx = i64_mag(x);
    let my = i64_mag(y);
    let m = mx % my;
    if x < 0 {
        if m == 0x8000_0000_0000_0000u64 {
            i64::MIN
        } else {
            -(m as i64)
        }
    } else {
        m as i64
    }
}

impl Number {
    /// Negation; total, the float case only flips the sign bit and the
    /// leading minus of the stored text.
    pub fn neg(self) -> (r: Number)
        ensures
            r@ == spec_neg(self@),
    {
        match self.n {
            N::PosInt(v) => {
                let w: i64 = 0i64.wrapping_sub(#[verifier::truncate] (v as i64));
                Number { n: N::NegInt(w) }
            },
            N::NegInt(x) => {
                let w: i64 = 0i64.wrapping_sub(x);
                if w < 0 {
                    Number { n: N::NegInt(w) }
                } else {
                    Number { n: N::PosInt(w as u64) }
                }
            },
            N::Float { bits, text } => {
                let flipped = bits ^ 0x8000_0000_0000_0000u64;
                let negated = neg_text(text);
                Number { n: N::Float { bits: flipped, text: negated } }
            },
        }
    }

    /// Addition of two integer variants; `None` when a float is
    /// involved, whose sum is produced at the crate boundary instead.
    pub fn add(self, rhs: Number) -> (r: Option<Number>)
        ensures
            match spec_add(self@, rhs@) {
                Some(v) => r matches Some(m) && m@ == v,
                None => r is None,
            },
    {
        match (self.n, rhs.n) {
            (N::PosInt(x), N::PosInt(y)) => Some(Number { n: N::PosInt(x.wrapping_add(y)) }),
            (N::PosInt(x), N::NegInt(y)) => Some(
                Number::from_i64((#[verifier::truncate] (x as i64)).wrapping_add(y)),
            ),
            (N::NegInt(x), N::NegInt(y)) => Some(Number::from_i64(x.wrapping_add(y))),
            (N::NegInt(x), N::PosInt(y)) => Some(
                Number::from_i64(x.wrapping_add(#[verifier::truncate] (y as i64))),
            ),
            _ => None,
        }
    }

    /// Subtraction of two integer variants; `None` when a float is
    /// involved.
    pub fn sub(self, rhs: Number) -> (r: Option<Number>)
        ensures
            match spec_sub(self@, rhs@) {
                Some(v) => r matches Some(m) && m@ == v,
                None => r is None,
            },
    {
        match (self.n, rhs.n) {
            (N::PosInt(x), N::PosInt(y)) => {
                if x < y {
                    Some(
                        Number {
                            n: N::NegInt(
                                (#[verifier::truncate] (x as i64)).wrapping_sub(
                                    #[verifier::truncate] (y as i64),
                                ),
                            ),
                        },
                    )
                } else {
                    Some(Number { n: N::PosInt(x - y) })
                }
            },
            (N::PosInt(x), N::NegInt(y)) => Some(
                Number::from_i64((#[verifier::truncate] (x as i64)).wrapping_sub(y)),
            ),
            (N::NegInt(x), N::NegInt(y)) => Some(Number::from_i64(x.wrapping_sub(y))),
            (N::NegInt(x), N::PosInt(y)) => Some(
                Number::from_i64(x.wrapping_sub(#[verifier::truncate] (y as i64))),
            ),
            _ => None,
        }
    }

    /// Multiplication of two integer variants; `None` when a float is
    /// involved.
    pub fn mul(self, rhs: Number) -> (r: Option<Number>)
        ensures
            match spec_mul(self@, rhs@) {
                Some(v) => r matches Some(m) && m@ == v,
                None => r is None,
            },
    {
        match (self.n, rhs.n) {
            (N::PosInt(x), N::PosInt(y)) => Some(Number { n: N::PosInt(x.wrapping_mul(y)) }),
            (N::PosInt(x), N::NegInt(y)) => Some(
                Number::from_i64((#[verifier::truncate] (x as i64)).wrapping_mul(y)),
            ),
            (N::NegInt(x), N::NegInt(y)) => Some(Number::from_i64(x.wrapping_mul(y))),
            (N::NegInt(x), N::PosInt(y)) => Some(
                Number::from_i64(x.wrapping_mul(#[verifier::truncate] (y as i64))),
            ),
            _ => None,
        }
    }

    /// Remainder of two integer variants; `None` when a float is
    /// involved.  A zero integer divisor is excluded.
    pub fn rem(self, rhs: Number) -> (r: Option<Number>)
        requires
            rem_defined(self@, rhs@),
        ensures
            match spec_rem(self@, rhs@) {
                Some(v) => r matches Some(m) && m@ == v,
                None => r is None,
            },
    {
        match (self.n, rhs.n) {
            (N::PosInt(x), N::PosInt(y)) => Some(Number { n: N::PosInt(x % y) }),
            (N::PosInt(x), N::NegInt(y)) => Some(
                Number::from_i64(i64_trunc_rem(#[verifier::truncate] (x as i64), y)),
            ),
            (N::NegInt(x), N::NegInt(y)) => Some(Number::from_i64(i64_trunc_rem(x, y))),
            (N::NegInt(x), N::PosInt(y)) => {
                proof {
                    assert(y != 0 ==> (y as i64) != 0) by (bit_vector);
                }
                Some(Number::from_i64(i64_trunc_rem(x, #[verifier::truncate] (y as i64))))
            },
            _ => None,
        }
    }

    /// Division: two integer variants whose mathematical quotient has no
    /// fractional part re-coerce to the appropriate integer variant;
    /// everything else returns `None`, and the float quotient is
    /// produced at the crate boundary.
    pub fn div(self, rhs: Number) -> (r: Option<Number>)
        ensures
            match spec_div(self@, rhs@) {
                Some(v) => r matches Some(m) && m@ == v,
                None => r is None,
            },
    {
        let (xn, xm): (bool, u64) = match &self.n {
            N::PosInt(v) => (false, *v),
            N::NegInt(x) => (*x < 0, i64_mag(*x)),
            N::Float { .. } => { return None; },
        };
        let (yn, ym): (bool, u64) = match &rhs.n {
            N::PosInt(v) => (false, *v),
            N::NegInt(x) => (*x < 0, i64_mag(*x)),
            N::Float { .. } => { return None; },
        };
        if ym == 0 {
            return None;
        }
        if xm % ym != 0 {
            return None;
        }
        let q = xm / ym;
        if xn == yn || q == 0 {
            Some(Number { n: N::PosInt(q) })
        } else if q == 0x8000_0000_0000_0000u64 {
            Some(Number { n: N::NegInt(i64::MIN) })
        } else if q < 0x8000_0000_0000_0000u64 {
            Some(Number { n: N::NegInt(-(q as i64)) })
        } else {
            None
        }
    }

    /// The canonical text of this number.
    pub fn to_text(&self) -> (r: String)
        ensures
            r@ == spec_num_text(self@),
    {
        match &self.n {
            N::PosInt(v) => format_u64(*v),
            N::NegInt(x) => {
                if *x < 0 {
                    let mut s = minus_string();
                    let digits = format_u64(i64_mag(*x));
                    s.append(digits.as_str());
                    s
                } else {
                    format_u64(*x as u64)
                }
            },
            N::Float { text, .. } => text.clone(),
        }
    }
}

/// A fresh string holding one minus sign.
fn minus_string() -> (r: String)
    ensures
        r@ == seq!['-'],
{
    proof {
        reveal_strlit("-");
    }
    let s: String = "-".to_owned();
    assert(s@ =~= seq!['-']);
    s
}

/// The text of a negated float: toggle the leading minus sign.
fn neg_text(t: String) -> (r: String)
    ensures
        r@ == spec_neg_text(t@),
{
    let n = t.as_str().unicode_len();
    if n > 0 && t.as_str().get_char(0) == '-' {
        let rest = t.as_str().substring_char(1, n);
        assert(rest@ =~= t@.skip(1));
        rest.to_owned()
    } else {
        let mut s = minus_string();
        s.append(t.as_str());
        assert(s@ =~= spec_neg_text(t@));
        s
    }
}

/// Division re-coercion: the quotient of two integer variants collapses
/// back to an integer exactly when the division is exact, keeping the
/// sign rules; an inexact quotient is left to the float path.
pub proof fn lemma_division_recoerces()
    ensures
        spec_div(NumberView::PosInt(4), NumberView::PosInt(2)) == Some(NumberView::PosInt(2)),
        spec_div(spec_norm_i64(-4i64), NumberView::PosInt(2)) == Some(NumberView::NegInt(-2i64)),
        spec_div(NumberView::PosInt(1), NumberView::PosInt(2)) == None::<NumberView>,
{
}

} // verus!
