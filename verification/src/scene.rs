//! Scene infrastructure to be used with render phases: the drawing error
//! taxonomy, the per-frame report of what was drawn, culled or rejected, and
//! the capability traits that entities, cameras and view information
//! implement to feed a phase.

use vstd::prelude::*;
use crate::phase::ToDepth;
use crate::space::Transform;
use crate::types::{BatchError, FlushError, Mesh, MeshView, Slice};

verus! {

/// Scene drawing error.
#[derive(Clone, Copy, PartialEq, Eq, Structural, Debug)]
pub enum Error {
    /// Error in creating a batch.
    Batch(BatchError),
    /// Error in sending a batch for drawing.
    Flush(FlushError),
}

/// Type of the call counters.
pub type Count = u32;

/// Rendering success report: how every attempted draw call of a frame was
/// classified.
#[derive(Clone, Copy, PartialEq, Eq, Structural, Debug)]
pub struct Report {
    /// Number of calls on invisible entities.
    pub calls_invisible: Count,
    /// Number of calls that got culled out.
    pub calls_culled: Count,
    /// Number of calls the phase does not apply to.
    pub calls_rejected: Count,
    /// Number of calls that failed to link batches.
    pub calls_failed: Count,
    /// Number of calls issued to the output target.
    pub calls_passed: Count,
    /// Number of primitives rendered.
    pub primitives_rendered: Count,
}

impl Report {
    /// Create an empty report.
    pub fn new() -> (r: Report)
        ensures
            r == (Report {
                calls_invisible: 0u32,
                calls_culled: 0u32,
                calls_rejected: 0u32,
                calls_failed: 0u32,
                calls_passed: 0u32,
                primitives_rendered: 0u32,
            }),
    {
        Report {
            calls_rejected: 0,
            calls_failed: 0,
            calls_culled: 0,
            calls_invisible: 0,
            calls_passed: 0,
            primitives_rendered: 0,
        }
    }

    /// Total number of draw calls that were attempted.
    pub fn get_calls_total(&self) -> (n: Count)
        requires
            self.calls_invisible + self.calls_culled + self.calls_rejected + self.calls_failed
                + self.calls_passed <= u32::MAX,
        ensures
            n == self.calls_invisible + self.calls_culled + self.calls_rejected + self.calls_failed
                + self.calls_passed,
    {
        self.calls_invisible + self.calls_culled + self.calls_rejected + self.calls_failed
            + self.calls_passed
    }
}

/// A fragment of an entity: one draw call's worth of material and geometry.
pub struct Fragment<M> {
    /// Fragment material.
    pub material: M,
    /// Mesh slice.
    pub slice: Slice,
}

impl<M> Fragment<M> {
    /// Create a new fragment.
    pub fn new(mat: M, slice: Slice) -> (r: Fragment<M>)
        ensures
            r.material == mat,
            r.slice == slice,
    {
        Fragment { material: mat, slice }
    }
}

/// An abstract node in space, carrying a local-to-world transform.
pub trait Node: Sized {
    /// Associated transform type.
    type Transform;

    /// The node's local-to-world transform.
    spec fn spec_transform(&self) -> Self::Transform;

    /// Get the local-to-world transform.
    fn get_transform(&self) -> (t: Self::Transform)
        ensures
            t == self.spec_transform(),
    ;
}

/// An abstract entity: a node with a spatial bound, a mesh, and drawable
/// fragments.
pub trait Entity<M>: Node {
    /// Type of the spatial bound.
    type Bound;

    /// Whether the entity is visible at all.
    spec fn spec_visible(&self) -> bool;

    /// Check if the entity is visible.
    fn is_visible(&self) -> (r: bool)
        ensures
            r == self.spec_visible(),
    ;

    /// The entity's local bound.
    spec fn spec_bound(&self) -> Self::Bound;

    /// Get the local bound.
    fn get_bound(&self) -> (b: Self::Bound)
        ensures
            b == self.spec_bound(),
    ;

    /// The entity's mesh.
    spec fn spec_mesh(&self) -> MeshView;

    /// Get the mesh.
    fn get_mesh(&self) -> (m: &Mesh)
        ensures
            m@ == self.spec_mesh(),
    ;

    /// The entity's drawable fragments.
    spec fn spec_fragments(&self) -> Seq<Fragment<M>>;

    /// Get the drawable fragments.
    fn get_fragments(&self) -> (f: &Vec<Fragment<M>>)
        ensures
            f@ == self.spec_fragments(),
    ;
}

/// An abstract camera: a node with a projection, both expressed in the
/// scene's transform type.
pub trait Camera: Node where Self::Transform: Transform {
    /// The camera's projection.
    spec fn spec_projection(&self) -> Self::Transform;

    /// Get the projection.
    fn get_projection(&self) -> (p: Self::Transform)
        ensures
            p == self.spec_projection(),
    ;

    /// Compute the view-projection transform: the projection composed with
    /// the inverse of the camera's own placement.
    fn get_view_projection(&self) -> (vp: Self::Transform)
        requires
            self.spec_transform().spec_invert() is Some,
        ensures
            vp == self.spec_projection().spec_concat(
                self.spec_transform().spec_invert()->Some_0,
            ),
    {
        let view = self.get_transform().invert().unwrap();
        self.get_projection().concat(&view)
    }
}

/// Abstract information about the view of one entity: at least the
/// model-view-projection data a technique needs, convertible to a depth.
pub trait ViewInfo<T>: ToDepth {
    /// What construction yields.
    spec fn spec_new(mvp: T, view: T, model: T) -> Self;

    /// Construct a new information block from the model-view-projection,
    /// view and model transforms.
    fn new(mvp: T, view: T, model: T) -> (r: Self)
        ensures
            r == Self::spec_new(mvp, view, model),
    ;
}

} // verus!
