//! The hand-over of a camera to an outside renderer.
use vstd::prelude::*;

verus! {

/// Hand a camera's world position (`f32` bits) and its view and projection
/// matrices, of whatever type the renderer uses, over unchanged.
pub fn stratum_camera_to_external<P>(position: [u32; 3], view_matrix: P, projection_matrix: P) -> (r: (
    [u32; 3],
    P,
    P,
))
    ensures
        r == (position, view_matrix, projection_matrix),
{
    (position, view_matrix, projection_matrix)
}

} // verus!
