//! Arbitrary-precision integers and complex numbers, as `num` provides them.
//!
//! Nothing in this file is proved: each contract restates what the source of
//! `num-bigint` and `num-complex` does, over the integer a value stands for.

use num::complex::Complex;
use num::BigInt;
use vstd::prelude::*;

verus! {

/// `num::BigInt`, an integer of any size; what it holds is opaque here.
#[verifier::external_type_specification]
#[verifier::external_body]
pub struct ExBigInt(BigInt);

/// `num::complex::Complex`, a real and an imaginary part of type `T`; what
/// it holds is opaque here.
#[verifier::external_type_specification]
#[verifier::external_body]
#[verifier::reject_recursive_types(T)]
pub struct ExComplex<T>(Complex<T>);

/// The integer that a `BigInt` stands for.
pub uninterp spec fn big_value(b: BigInt) -> int;

/// The real and the imaginary part of a `Complex<BigInt>`, in this order.
pub uninterp spec fn complex_parts(c: Complex<BigInt>) -> (int, int);

/// `BigInt::from` on a `usize`: the same integer, whatever its size.
#[verifier::external_body]
pub(crate) fn big_from(v: usize) -> (r: BigInt)
    ensures
        big_value(r) == v,
{
    BigInt::from(v)
}

/// `Clone::clone` of `BigInt`: a second value for the same integer.
#[verifier::external_body]
pub(crate) fn big_clone(a: &BigInt) -> (r: BigInt)
    ensures
        big_value(r) == big_value(*a),
{
    a.clone()
}

/// `Add::add` of two `&BigInt`: their sum. Nothing overflows.
#[verifier::external_body]
pub(crate) fn big_add(a: &BigInt, b: &BigInt) -> (r: BigInt)
    ensures
        big_value(r) == big_value(*a) + big_value(*b),
{
    a + b
}

/// `Complex::new` on two `BigInt`s made with `BigInt::from`: the number
/// `re + im·i`.
#[verifier::external_body]
pub(crate) fn complex_new(re: i64, im: i64) -> (r: Complex<BigInt>)
    ensures
        complex_parts(r) == (re as int, im as int),
{
    Complex::new(BigInt::from(re), BigInt::from(im))
}

/// `Add::add` of two `&Complex<BigInt>`: the sum, part by part.
#[verifier::external_body]
pub(crate) fn complex_add(a: &Complex<BigInt>, b: &Complex<BigInt>) -> (r: Complex<BigInt>)
    ensures
        complex_parts(r) == (
            complex_parts(*a).0 + complex_parts(*b).0,
            complex_parts(*a).1 + complex_parts(*b).1,
        ),
{
    a + b
}

/// `Mul::mul` of two `&Complex<BigInt>`: the complex product
/// `(a.re·b.re − a.im·b.im) + (a.re·b.im + a.im·b.re)·i`.
#[verifier::external_body]
pub(crate) fn complex_mul(a: &Complex<BigInt>, b: &Complex<BigInt>) -> (r: Complex<BigInt>)
    ensures
        complex_parts(r) == (
            complex_parts(*a).0 * complex_parts(*b).0 - complex_parts(*a).1 * complex_parts(*b).1,
            complex_parts(*a).0 * complex_parts(*b).1 + complex_parts(*a).1 * complex_parts(*b).0,
        ),
{
    a * b
}

/// `Neg::neg` of a `&Complex<BigInt>`: both parts negated.
#[verifier::external_body]
pub(crate) fn complex_neg(a: &Complex<BigInt>) -> (r: Complex<BigInt>)
    ensures
        complex_parts(r) == (-complex_parts(*a).0, -complex_parts(*a).1),
{
    -a
}

/// `Complex::norm_sqr`: the squared modulus `re² + im²`.
#[verifier::external_body]
pub(crate) fn complex_norm_sqr(a: &Complex<BigInt>) -> (r: BigInt)
    ensures
        big_value(r) == complex_parts(*a).0 * complex_parts(*a).0 + complex_parts(*a).1
            * complex_parts(*a).1,
{
    a.norm_sqr()
}

} // verus!
