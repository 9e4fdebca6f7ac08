//! Failure kinds and indices of the projection and deformation pipelines.
use vstd::prelude::*;

verus! {

/// Invalid projection parameters.
#[derive(Debug, Clone, Copy, PartialEq, Eq, Structural)]
pub enum ProjectionError {
    /// `fov_y` outside `(0, pi)` or a non-positive aspect.
    InvalidPerspective,
    /// Inverted or non-finite orthographic bounds.
    InvalidOrthographic,
}

/// The planes of a view frustum, in their documented order.
#[derive(Debug, Clone, Copy, PartialEq, Eq, Structural)]
pub enum FrustumPlane {
    Left,
    Right,
    Bottom,
    Top,
    Near,
    Far,
}

/// Position of a plane in the order left, right, bottom, top, near, far.
pub open spec fn plane_index(p: FrustumPlane) -> nat {
    match p {
        FrustumPlane::Left => 0,
        FrustumPlane::Right => 1,
        FrustumPlane::Bottom => 2,
        FrustumPlane::Top => 3,
        FrustumPlane::Near => 4,
        FrustumPlane::Far => 5,
    }
}

impl FrustumPlane {
    /// Number of frustum planes.
    pub const PLANE_COUNT: usize = 6;

    /// Position of the plane in the plane array.
    pub fn index(self) -> (i: usize)
        ensures
            i == plane_index(self),
            i < 6,
    {
        match self {
            FrustumPlane::Left => 0,
            FrustumPlane::Right => 1,
            FrustumPlane::Bottom => 2,
            FrustumPlane::Top => 3,
            FrustumPlane::Near => 4,
            FrustumPlane::Far => 5,
        }
    }
}

/// Failures of the deformation input pipeline.
#[derive(Debug, Clone, PartialEq, Eq)]
pub enum DeformationError {
    /// The two canonical bases do not share topology.
    NotIsomorphic(String),
    /// A produced mesh contains non-finite values.
    NonFinite(&'static str),
}

/// The text of a projection error.
pub open spec fn projection_message(e: ProjectionError) -> Seq<char> {
    match e {
        ProjectionError::InvalidPerspective => "perspective projection needs fov_y in (0, pi) and a positive aspect"@,
        ProjectionError::InvalidOrthographic => "orthographic projection needs left < right and bottom < top"@,
    }
}

impl ProjectionError {
    /// The text of the error.
    pub fn message(&self) -> (m: &'static str)
        ensures
            m@ == projection_message(*self),
    {
        match self {
            ProjectionError::InvalidPerspective => "perspective projection needs fov_y in (0, pi) and a positive aspect",
            ProjectionError::InvalidOrthographic => "orthographic projection needs left < right and bottom < top",
        }
    }
}

/// The text of a deformation error.
pub open spec fn deformation_message(e: DeformationError) -> Seq<char> {
    match e {
        DeformationError::NotIsomorphic(detail) => "canonical bases are not isomorphic: "@ + detail@,
        DeformationError::NonFinite(what) => "deformation produced non-finite geometry in "@ + what@,
    }
}

impl DeformationError {
    /// The text of the error.
    pub fn message(&self) -> (m: String)
        ensures
            m@ == deformation_message(*self),
    {
        match self {
            DeformationError::NotIsomorphic(detail) => {
                let mut m = String::from_str("canonical bases are not isomorphic: ");
                m.append(detail.as_str());
                m
            },
            DeformationError::NonFinite(what) => {
                let mut m = String::from_str("deformation produced non-finite geometry in ");
                m.append(what);
                m
            },
        }
    }
}

} // verus!
