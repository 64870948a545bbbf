//! The curve operations this library relies on, taken from `pasta_curves`.
//!
//! Points and field elements are opaque here: the library only passes them
//! between the operations below, whose results are named by spec functions.

use group::{Curve, Group};
use pasta_curves::arithmetic::{CurveAffine, CurveExt};
use pasta_curves::pallas;
use vstd::prelude::*;
use vstd::string::StringSliceAdditionalSpecFns;

verus! {

#[verifier::external_type_specification]
#[verifier::external_body]
pub struct ExPoint(pallas::Point);

#[verifier::external_type_specification]
#[verifier::external_body]
pub struct ExBase(pallas::Base);

#[verifier::external_type_specification]
#[verifier::external_body]
pub struct ExScalar(pallas::Scalar);

/// The point that hash-to-curve gives for a personalization and a message.
pub uninterp spec fn hash_to_curve_of(prefix: Seq<char>, msg: Seq<u8>) -> pallas::Point;

/// The sum of two points under the curve's complete addition law.
pub uninterp spec fn point_add_of(a: pallas::Point, b: pallas::Point) -> pallas::Point;

/// The point `p * s`.
pub uninterp spec fn scalar_mul_of(p: pallas::Point, s: pallas::Scalar) -> pallas::Point;

/// Whether a point is the group identity.
pub uninterp spec fn is_identity_of(p: pallas::Point) -> bool;

/// The affine x-coordinate of a point other than the identity.
pub uninterp spec fn affine_x_of(p: pallas::Point) -> pallas::Base;

/// The base field element of an unsigned integer.
pub uninterp spec fn base_of_u64(n: u64) -> pallas::Base;

/// Relies on `CurveExt::hash_to_curve` of the Pallas curve: a deterministic map
/// from a personalization and a message to a point. It asserts that the
/// personalization is shorter than 228 bytes.
#[verifier::external_body]
pub(crate) fn hash_to_curve(prefix: &str, msg: &[u8]) -> (r: pallas::Point)
    requires
        prefix.spec_bytes().len() < 228,
    ensures
        r == hash_to_curve_of(prefix@, msg@),
{
    pallas::Point::hash_to_curve(prefix)(msg)
}

/// Relies on `Add` for Pallas points: complete addition, which returns the
/// other operand unchanged when one operand is the identity.
#[verifier::external_body]
pub(crate) fn point_add(a: &pallas::Point, b: &pallas::Point) -> (r: pallas::Point)
    ensures
        r == point_add_of(*a, *b),
        is_identity_of(*a) ==> r == *b,
        is_identity_of(*b) ==> r == *a,
{
    a + b
}

/// Relies on `Mul<&Scalar>` for Pallas points: scalar multiplication.
#[verifier::external_body]
pub(crate) fn scalar_mul(p: &pallas::Point, s: &pallas::Scalar) -> (r: pallas::Point)
    ensures
        r == scalar_mul_of(*p, *s),
{
    p * s
}

/// Relies on `Group::is_identity` for Pallas points.
#[verifier::external_body]
pub(crate) fn is_identity(p: &pallas::Point) -> (r: bool)
    ensures
        r == is_identity_of(*p),
{
    bool::from(p.is_identity())
}

/// Relies on `Curve::to_affine` and `CurveAffine::coordinates`, whose
/// coordinates are absent only for the identity, excluded here.
#[verifier::external_body]
pub(crate) fn affine_x(p: &pallas::Point) -> (r: pallas::Base)
    requires
        !is_identity_of(*p),
    ensures
        r == affine_x_of(*p),
{
    *p.to_affine().coordinates().unwrap().x()
}

/// Relies on `From<u64>` for the Pallas base field.
#[verifier::external_body]
pub(crate) fn base_from_u64(n: u64) -> (r: pallas::Base)
    ensures
        r == base_of_u64(n),
{
    pallas::Base::from(n)
}

} // verus!
