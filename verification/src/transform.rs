//! Spatial transforms for scene nodes.
//!
//! Nodes carry an affine transform from the `glam` crate. The value is opaque
//! to the verified code: it is stored, copied and composed, never inspected,
//! so the numeric matrix math stays entirely inside `glam`.
use vstd::prelude::*;

verus! {

/// `glam::Affine3A` carried through the scene graph and the visual server as
/// an opaque value.
#[verifier::external_type_specification]
#[verifier::external_body]
pub struct ExAffine3A(glam::Affine3A);

/// The identity transform.
///
/// Relies on `glam::Affine3A::IDENTITY`.
#[verifier::external_body]
pub fn affine_identity() -> glam::Affine3A {
    glam::Affine3A::IDENTITY
}

/// Composes two affine transforms, the left one applied last; used to turn a
/// parent's global transform and a child's local transform into the child's
/// global transform.
///
/// Relies on `glam::Affine3A`'s multiplication.
#[verifier::external_body]
pub fn mul_affine(a: &glam::Affine3A, b: &glam::Affine3A) -> glam::Affine3A {
    *a * *b
}

} // verus!
