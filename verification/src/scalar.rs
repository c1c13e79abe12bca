//! Scalars of the network: IEEE-754 binary64 numbers, carried as their
//! 8-byte bit patterns in `u64` values.
//!
//! Verus does not reason about floating-point arithmetic, so each
//! arithmetic operation is a small trusted primitive whose result is
//! named by an uninterpreted spec function of the operands' bit
//! patterns.  Every operation used here is total over all bit patterns
//! and depends on its arguments alone, so the names are well defined.
//! Two reservations in the standard library's documentation bound that
//! claim: the payload bits of a NaN produced by the arithmetic
//! operations are not specified, and the last-bit rounding of `exp`
//! and `tanh` may differ between platforms and library versions.
//! Within one executable on one target each call is a fixed function
//! of its operands, which is all the contracts here rely on; no
//! contract states a concrete value of any name.
//! Negation and the comparison against zero, by contrast, are plain bit
//! manipulations of the encoding and are implemented and verified here
//! directly.
//!
//! Inside the trusted bodies, `N64::unchecked_new` (a plain constructor
//! that performs no check and cannot panic) only pins the numeric type
//! that `bytemuck::cast` converts a bit pattern into; `to_bits` converts
//! the result back.

use vstd::prelude::*;

verus! {

/// Bit pattern of the number zero.
pub const ZERO_BITS: u64 = 0x0000_0000_0000_0000;

/// Bit pattern of the number one.
pub const ONE_BITS: u64 = 0x3FF0_0000_0000_0000;

/// Bit pattern of the number two.
pub const TWO_BITS: u64 = 0x4000_0000_0000_0000;

/// Bit pattern of the number six.
pub const SIX_BITS: u64 = 0x4018_0000_0000_0000;

/// The sign bit of a binary64 pattern.
pub const SIGN_MASK: u64 = 0x8000_0000_0000_0000;

/// Bit pattern of positive infinity: the largest pattern whose encoded
/// value is strictly greater than zero.
pub const POS_INF_BITS: u64 = 0x7FF0_0000_0000_0000;

/// The bit pattern of the binary64 sum of the numbers `a` and `b` encode.
pub uninterp spec fn add_bits(a: u64, b: u64) -> u64;

/// The bit pattern of the binary64 difference of the numbers `a` and `b` encode.
pub uninterp spec fn sub_bits(a: u64, b: u64) -> u64;

/// The bit pattern of the binary64 product of the numbers `a` and `b` encode.
pub uninterp spec fn mul_bits(a: u64, b: u64) -> u64;

/// The bit pattern of the binary64 quotient of the numbers `a` and `b` encode.
pub uninterp spec fn div_bits(a: u64, b: u64) -> u64;

/// The bit pattern of the binary64 exponential of the number `a` encodes.
pub uninterp spec fn exp_bits(a: u64) -> u64;

/// The bit pattern of the binary64 hyperbolic tangent of the number `a` encodes.
pub uninterp spec fn tanh_bits(a: u64) -> u64;

/// The bit pattern of the binary64 square root of the number `a` encodes.
pub uninterp spec fn sqrt_bits(a: u64) -> u64;

/// The bit pattern of the binary64 value nearest to the integer `n`.
pub uninterp spec fn usize_bits(n: usize) -> u64;

/// Binary64 negation flips the sign bit and leaves every other bit of
/// the pattern unchanged.
pub open spec fn neg_bits(a: u64) -> u64 {
    a ^ SIGN_MASK
}

/// `a` encodes a number strictly greater than zero exactly when its
/// sign bit is clear and it is neither a zero nor a NaN pattern; those
/// are the patterns from the smallest positive subnormal up to positive
/// infinity.
pub open spec fn pos_bits(a: u64) -> bool {
    1 <= a <= POS_INF_BITS
}

/// Relies on the standard library's binary64 `Add` impl: IEEE-754
/// addition, total on every pattern and a function of its operands alone.
#[verifier::external_body]
pub(crate) fn fadd(a: u64, b: u64) -> (r: u64)
    ensures
        r == add_bits(a, b),
{
    let x = noisy_float::types::N64::unchecked_new(bytemuck::cast(a)).raw();
    let y = noisy_float::types::N64::unchecked_new(bytemuck::cast(b)).raw();
    std::ops::Add::add(x, y).to_bits()
}

/// Relies on the standard library's binary64 `Sub` impl: IEEE-754
/// subtraction, total on every pattern and a function of its operands alone.
#[verifier::external_body]
pub(crate) fn fsub(a: u64, b: u64) -> (r: u64)
    ensures
        r == sub_bits(a, b),
{
    let x = noisy_float::types::N64::unchecked_new(bytemuck::cast(a)).raw();
    let y = noisy_float::types::N64::unchecked_new(bytemuck::cast(b)).raw();
    std::ops::Sub::sub(x, y).to_bits()
}

/// Relies on the standard library's binary64 `Mul` impl: IEEE-754
/// multiplication, total on every pattern and a function of its operands alone.
#[verifier::external_body]
pub(crate) fn fmul(a: u64, b: u64) -> (r: u64)
    ensures
        r == mul_bits(a, b),
{
    let x = noisy_float::types::N64::unchecked_new(bytemuck::cast(a)).raw();
    let y = noisy_float::types::N64::unchecked_new(bytemuck::cast(b)).raw();
    std::ops::Mul::mul(x, y).to_bits()
}

/// Relies on the standard library's binary64 `Div` impl: IEEE-754
/// division, total on every pattern (a zero divisor gives an infinity or
/// NaN pattern, never a panic) and a function of its operands alone.
#[verifier::external_body]
pub(crate) fn fdiv(a: u64, b: u64) -> (r: u64)
    ensures
        r == div_bits(a, b),
{
    let x = noisy_float::types::N64::unchecked_new(bytemuck::cast(a)).raw();
    let y = noisy_float::types::N64::unchecked_new(bytemuck::cast(b)).raw();
    std::ops::Div::div(x, y).to_bits()
}

/// Relies on the standard library's binary64 `exp` method: total on
/// every pattern and, for a given build on a given target, a function
/// of its argument alone (see the module doc on its rounding).
#[verifier::external_body]
pub(crate) fn fexp(a: u64) -> (r: u64)
    ensures
        r == exp_bits(a),
{
    let x = noisy_float::types::N64::unchecked_new(bytemuck::cast(a)).raw();
    x.exp().to_bits()
}

/// Relies on the standard library's binary64 `tanh` method: total on
/// every pattern and, for a given build on a given target, a function
/// of its argument alone (see the module doc on its rounding).
#[verifier::external_body]
pub(crate) fn ftanh(a: u64) -> (r: u64)
    ensures
        r == tanh_bits(a),
{
    let x = noisy_float::types::N64::unchecked_new(bytemuck::cast(a)).raw();
    x.tanh().to_bits()
}

/// Relies on the standard library's binary64 `sqrt` method: total on
/// every pattern and a function of its argument alone.
#[verifier::external_body]
pub(crate) fn fsqrt(a: u64) -> (r: u64)
    ensures
        r == sqrt_bits(a),
{
    let x = noisy_float::types::N64::unchecked_new(bytemuck::cast(a)).raw();
    x.sqrt().to_bits()
}

/// Relies on `num_traits::cast`, which converts an unsigned integer to
/// the nearest binary64 value; for `usize` the conversion is total, so
/// the `unwrap` cannot panic.
#[verifier::external_body]
pub(crate) fn from_usize(n: usize) -> (r: u64)
    ensures
        r == usize_bits(n),
{
    let x = noisy_float::types::N64::unchecked_new(num_traits::cast(n).unwrap()).raw();
    x.to_bits()
}

/// Binary64 negation, computed on the pattern itself.
pub(crate) fn fneg(a: u64) -> (r: u64)
    ensures
        r == neg_bits(a),
{
    a ^ SIGN_MASK
}

/// Whether `a` encodes a number strictly greater than zero, decided on
/// the pattern itself.
pub(crate) fn is_pos(a: u64) -> (r: bool)
    ensures
        r == pos_bits(a),
{
    1 <= a && a <= POS_INF_BITS
}

/// The elementwise difference of two equally long vectors.
pub open spec fn vsub_bits(a: Seq<u64>, b: Seq<u64>) -> Seq<u64> {
    Seq::new(a.len(), |i: int| sub_bits(a[i], b[i]))
}

/// The sum of the squares of the first `n` components, folded from the
/// left starting at zero.
pub open spec fn sum_sq_prefix(d: Seq<u64>, n: int) -> u64
    decreases n,
{
    if n <= 0 {
        ZERO_BITS
    } else {
        add_bits(sum_sq_prefix(d, n - 1), mul_bits(d[n - 1], d[n - 1]))
    }
}

/// The sum of the squares of all components.
pub open spec fn sum_sq_bits(d: Seq<u64>) -> u64 {
    sum_sq_prefix(d, d.len() as int)
}

/// The dot product of the first `n` components of `w` and `x`, folded
/// from the left starting at zero.
pub open spec fn dot_prefix(w: Seq<u64>, x: Seq<u64>, n: int) -> u64
    decreases n,
{
    if n <= 0 {
        ZERO_BITS
    } else {
        add_bits(dot_prefix(w, x, n - 1), mul_bits(w[n - 1], x[n - 1]))
    }
}

/// The dot product of two equally long vectors.
pub open spec fn dot_bits(w: Seq<u64>, x: Seq<u64>) -> u64 {
    dot_prefix(w, x, w.len() as int)
}

/// Computes the elementwise difference of two equally long vectors.
pub(crate) fn vec_sub(a: &Vec<u64>, b: &Vec<u64>) -> (r: Vec<u64>)
    requires
        a@.len() == b@.len(),
    ensures
        r@ == vsub_bits(a@, b@),
{
    let n = a.len();
    let mut r: Vec<u64> = Vec::new();
    let mut i: usize = 0;
    while i < n
        invariant
            i <= n,
            n == a@.len(),
            n == b@.len(),
            r@.len() == i,
            forall|k: int| 0 <= k < i ==> r@[k] == sub_bits(a@[k], b@[k]),
        decreases n - i,
    {
        r.push(fsub(a[i], b[i]));
        i = i + 1;
    }
    proof {
        assert(r@ =~= vsub_bits(a@, b@));
    }
    r
}

/// Computes the sum of the squares of the components, folded from the
/// left starting at zero.
pub(crate) fn sum_squares(d: &Vec<u64>) -> (r: u64)
    ensures
        r == sum_sq_bits(d@),
{
    let n = d.len();
    let mut acc: u64 = ZERO_BITS;
    let mut i: usize = 0;
    while i < n
        invariant
            i <= n,
            n == d@.len(),
            acc == sum_sq_prefix(d@, i as int),
        decreases n - i,
    {
        acc = fadd(acc, fmul(d[i], d[i]));
        i = i + 1;
    }
    acc
}

/// Computes the dot product of two equally long vectors, folded from
/// the left starting at zero.
pub(crate) fn dot(w: &Vec<u64>, x: &Vec<u64>) -> (r: u64)
    requires
        w@.len() == x@.len(),
    ensures
        r == dot_bits(w@, x@),
{
    let n = w.len();
    let mut acc: u64 = ZERO_BITS;
    let mut i: usize = 0;
    while i < n
        invariant
            i <= n,
            n == w@.len(),
            n == x@.len(),
            acc == dot_prefix(w@, x@, i as int),
        decreases n - i,
    {
        acc = fadd(acc, fmul(w[i], x[i]));
        i = i + 1;
    }
    acc
}

} // verus!
