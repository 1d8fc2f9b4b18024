//! Visibility culling and the scene-drawing front-end: a culler classifies
//! entity bounds against the view volume, and the context drives a whole
//! entity list through a phase, tallying what was drawn, culled or
//! rejected into a report.

use vstd::prelude::*;
use crate::phase::{AbstractPhase, Material, Stream, ToDepth};
use crate::scene::{Camera, Entity, Error, Fragment, Node, Report, ViewInfo};
use crate::space::Transform;
use crate::types::MeshView;

verus! {

/// How a bound relates to the view volume.
#[derive(Clone, Copy, PartialEq, Eq, Structural, Debug)]
pub enum Relation {
    /// Fully inside.
    In,
    /// Crossing the boundary.
    Cross,
    /// Fully outside.
    Out,
}

/// A spatial bound that can classify itself against a clip-space transform.
pub trait Bound<T>: Sized {
    /// What the classification yields.
    spec fn spec_relate(&self, mvp: T) -> Relation;

    /// Classify this bound under a model-view-projection transform.
    fn relate_clip_space(&self, mvp: &T) -> (r: Relation)
        ensures
            r == self.spec_relate(*mvp),
    ;
}

/// Generic bound culler. Culling is a pure classification here: a culling
/// session leaves the culler as it was.
pub trait Culler<T, B: Bound<T>>: Sized {
    /// What culling decides for a bound under a transform.
    spec fn spec_cull(&self, bound: B, mvp: T) -> Relation;

    /// Start a new culling session.
    fn init(&mut self)
        ensures
            *final(self) == *old(self),
    ;

    /// Cull a bound with a given transformation.
    fn cull(&mut self, bound: &B, mvp: &T) -> (r: Relation)
        ensures
            *final(self) == *old(self),
            r == old(self).spec_cull(*bound, *mvp),
    ;
}

/// The unit culler never rejects anything.
impl<T, B: Bound<T>> Culler<T, B> for () {
    open spec fn spec_cull(&self, bound: B, mvp: T) -> Relation {
        Relation::Cross
    }

    fn init(&mut self) {
    }

    fn cull(&mut self, bound: &B, mvp: &T) -> (r: Relation) {
        Relation::Cross
    }
}

/// Frustum culler: asks the bound itself how it relates to clip space.
pub struct Frustum<T, B>(core::marker::PhantomData<(T, B)>);

impl<T, B> Frustum<T, B> {
    /// Create a new frustum culler.
    pub fn new() -> (r: Frustum<T, B>) {
        Frustum(core::marker::PhantomData)
    }
}

impl<T, B: Bound<T>> Culler<T, B> for Frustum<T, B> {
    open spec fn spec_cull(&self, bound: B, mvp: T) -> Relation {
        bound.spec_relate(mvp)
    }

    fn init(&mut self) {
    }

    fn cull(&mut self, bound: &B, mvp: &T) -> (r: Relation) {
        bound.relate_clip_space(mvp)
    }
}

/// Culler context: a culler plus the camera-derived transforms of one
/// frame.
pub struct Context<T, B, U> {
    culler: U,
    cam_inverse: T,
    view_projection: T,
    dummy: core::marker::PhantomData<B>,
}

/// The classification counts a scene pass produces, unbounded; the report
/// carries them as machine integers once they are known to fit.
pub struct Tally {
    /// Fragments of invisible entities.
    pub invisible: int,
    /// Fragments culled out.
    pub culled: int,
    /// Fragments the phase does not apply to.
    pub rejected: int,
    /// Fragments enqueued for drawing.
    pub passed: int,
    /// Primitives of the enqueued fragments.
    pub primitives: int,
}

/// The all-zero tally.
pub open spec fn zero_tally() -> Tally {
    Tally { invisible: 0, culled: 0, rejected: 0, passed: 0, primitives: 0 }
}

/// Componentwise sum of two tallies.
pub open spec fn tally_add(a: Tally, b: Tally) -> Tally {
    Tally {
        invisible: a.invisible + b.invisible,
        culled: a.culled + b.culled,
        rejected: a.rejected + b.rejected,
        passed: a.passed + b.passed,
        primitives: a.primitives + b.primitives,
    }
}

/// Componentwise order on tallies.
pub open spec fn tally_le(a: Tally, b: Tally) -> bool {
    &&& a.invisible <= b.invisible
    &&& a.culled <= b.culled
    &&& a.rejected <= b.rejected
    &&& a.passed <= b.passed
    &&& a.primitives <= b.primitives
}

/// All components of a tally are nonnegative.
pub open spec fn tally_nonneg(a: Tally) -> bool {
    tally_le(zero_tally(), a)
}

/// What one fragment contributes: rejected, or passed with its primitives.
pub open spec fn frag_contribution<M: Material, V: ToDepth, P, S: Stream<P>, H: AbstractPhase<M, V, P, S>>(
    phase: H,
    mesh: MeshView,
    f: Fragment<M>,
) -> Tally {
    if phase.spec_applies(mesh, f.material) {
        Tally {
            invisible: 0,
            culled: 0,
            rejected: 0,
            passed: 1,
            primitives: f.slice.end - f.slice.start,
        }
    } else {
        Tally { invisible: 0, culled: 0, rejected: 1, passed: 0, primitives: 0 }
    }
}

/// What an entity's fragment list contributes, fragment by fragment.
pub open spec fn frag_counts<M: Material, V: ToDepth, P, S: Stream<P>, H: AbstractPhase<M, V, P, S>>(
    phase: H,
    mesh: MeshView,
    frags: Seq<Fragment<M>>,
) -> Tally
    decreases frags.len(),
{
    if frags.len() == 0 {
        zero_tally()
    } else {
        tally_add(
            frag_counts(phase, mesh, frags.drop_last()),
            frag_contribution(phase, mesh, frags.last()),
        )
    }
}

/// What one entity contributes: all its fragments as invisible, as culled,
/// or classified one by one.
pub open spec fn entity_contribution<
    T: Transform,
    B: Bound<T>,
    U: Culler<T, B>,
    M: Material,
    E: Entity<M, Bound = B, Transform = T>,
    V: ToDepth,
    P,
    S: Stream<P>,
    H: AbstractPhase<M, V, P, S>,
>(vp: T, culler: U, phase: H, e: E) -> Tally {
    let fc = e.spec_fragments().len() as int;
    if !e.spec_visible() {
        Tally { invisible: fc, culled: 0, rejected: 0, passed: 0, primitives: 0 }
    } else {
        let mvp = vp.spec_concat(e.spec_transform());
        if culler.spec_cull(e.spec_bound(), mvp) == Relation::Out {
            Tally { invisible: 0, culled: fc, rejected: 0, passed: 0, primitives: 0 }
        } else {
            frag_counts(phase, e.spec_mesh(), e.spec_fragments())
        }
    }
}

/// The classification a whole scene pass produces, entity by entity.
pub open spec fn scene_tally<
    T: Transform,
    B: Bound<T>,
    U: Culler<T, B>,
    M: Material,
    E: Entity<M, Bound = B, Transform = T>,
    V: ToDepth,
    P,
    S: Stream<P>,
    H: AbstractPhase<M, V, P, S>,
>(vp: T, culler: U, phase: H, entities: Seq<E>) -> Tally
    decreases entities.len(),
{
    if entities.len() == 0 {
        zero_tally()
    } else {
        tally_add(
            scene_tally(vp, culler, phase, entities.drop_last()),
            entity_contribution(vp, culler, phase, entities.last()),
        )
    }
}

/// Every fragment slice is a forward range: what primitive counting needs.
pub open spec fn frags_wf<M>(frags: Seq<Fragment<M>>) -> bool {
    forall|j: int| 0 <= j < frags.len() ==> (#[trigger] frags[j]).slice.wf()
}

proof fn lemma_frag_counts_nonneg<M: Material, V: ToDepth, P, S: Stream<P>, H: AbstractPhase<M, V, P, S>>(
    phase: H,
    mesh: MeshView,
    frags: Seq<Fragment<M>>,
)
    requires
        frags_wf(frags),
    ensures
        tally_nonneg(frag_counts(phase, mesh, frags)),
    decreases frags.len(),
{
    if frags.len() > 0 {
        assert(frags_wf(frags.drop_last())) by {
            assert(forall|j: int| 0 <= j < frags.len() - 1 ==> frags.drop_last()[j] == frags[j]);
        }
        lemma_frag_counts_nonneg(phase, mesh, frags.drop_last());
        assert(frags[frags.len() - 1].slice.wf());
    }
}

proof fn lemma_frag_prefix_le<M: Material, V: ToDepth, P, S: Stream<P>, H: AbstractPhase<M, V, P, S>>(
    phase: H,
    mesh: MeshView,
    frags: Seq<Fragment<M>>,
    j: int,
)
    requires
        frags_wf(frags),
        0 <= j <= frags.len(),
    ensures
        tally_le(frag_counts(phase, mesh, frags.take(j)), frag_counts(phase, mesh, frags)),
        tally_nonneg(frag_counts(phase, mesh, frags.take(j))),
    decreases frags.len() - j,
{
    if j == frags.len() {
        assert(frags.take(j) =~= frags);
        lemma_frag_counts_nonneg(phase, mesh, frags);
    } else {
        lemma_frag_prefix_le(phase, mesh, frags, j + 1);
        assert(frags.take(j + 1).drop_last() =~= frags.take(j));
        assert(frags.take(j + 1).last() == frags[j]);
        assert(frags[j].slice.wf());
        lemma_frag_counts_nonneg(phase, mesh, frags.take(j));
    }
}

proof fn lemma_entity_contribution_nonneg<
    T: Transform,
    B: Bound<T>,
    U: Culler<T, B>,
    M: Material,
    E: Entity<M, Bound = B, Transform = T>,
    V: ToDepth,
    P,
    S: Stream<P>,
    H: AbstractPhase<M, V, P, S>,
>(vp: T, culler: U, phase: H, e: E)
    requires
        frags_wf(e.spec_fragments()),
    ensures
        tally_nonneg(entity_contribution(vp, culler, phase, e)),
{
    lemma_frag_counts_nonneg::<M, V, P, S, H>(phase, e.spec_mesh(), e.spec_fragments());
}

proof fn lemma_scene_prefix_le<
    T: Transform,
    B: Bound<T>,
    U: Culler<T, B>,
    M: Material,
    E: Entity<M, Bound = B, Transform = T>,
    V: ToDepth,
    P,
    S: Stream<P>,
    H: AbstractPhase<M, V, P, S>,
>(vp: T, culler: U, phase: H, entities: Seq<E>, i: int)
    requires
        0 <= i <= entities.len(),
        forall|k: int| 0 <= k < entities.len() ==> frags_wf(
            (#[trigger] entities[k]).spec_fragments(),
        ),
    ensures
        tally_le(
            scene_tally(vp, culler, phase, entities.take(i)),
            scene_tally(vp, culler, phase, entities),
        ),
        tally_nonneg(scene_tally(vp, culler, phase, entities.take(i))),
    decreases entities.len() - i,
{
    if i == entities.len() {
        assert(entities.take(i) =~= entities);
        lemma_scene_nonneg(vp, culler, phase, entities);
    } else {
        lemma_scene_prefix_le(vp, culler, phase, entities, i + 1);
        assert(entities.take(i + 1).drop_last() =~= entities.take(i));
        assert(entities.take(i + 1).last() == entities[i]);
        lemma_entity_contribution_nonneg(vp, culler, phase, entities[i]);
        lemma_scene_nonneg(vp, culler, phase, entities.take(i));
    }
}

proof fn lemma_scene_nonneg<
    T: Transform,
    B: Bound<T>,
    U: Culler<T, B>,
    M: Material,
    E: Entity<M, Bound = B, Transform = T>,
    V: ToDepth,
    P,
    S: Stream<P>,
    H: AbstractPhase<M, V, P, S>,
>(vp: T, culler: U, phase: H, entities: Seq<E>)
    requires
        forall|k: int| 0 <= k < entities.len() ==> frags_wf(
            (#[trigger] entities[k]).spec_fragments(),
        ),
    ensures
        tally_nonneg(scene_tally(vp, culler, phase, entities)),
    decreases entities.len(),
{
    if entities.len() > 0 {
        assert(forall|k: int|
            0 <= k < entities.len() - 1 ==> entities.drop_last()[k] == entities[k]);
        lemma_scene_nonneg(vp, culler, phase, entities.drop_last());
        lemma_entity_contribution_nonneg(vp, culler, phase, entities.last());
    }
}

impl<T: Transform, B: Bound<T>, U: Culler<T, B>> Context<T, B, U> {
    /// The culler.
    pub closed spec fn spec_culler(&self) -> U {
        self.culler
    }

    /// The inverse of the camera's placement.
    pub closed spec fn spec_cam_inverse(&self) -> T {
        self.cam_inverse
    }

    /// The view-projection transform of the frame.
    pub closed spec fn spec_view_projection(&self) -> T {
        self.view_projection
    }

    /// Create a new context from a culler and a camera, starting a culling
    /// session.
    pub fn new<C: Camera<Transform = T>>(culler: U, camera: &C) -> (r: Context<T, B, U>)
        requires
            camera.spec_transform().spec_invert() is Some,
        ensures
            r.spec_culler() == culler,
            r.spec_cam_inverse() == camera.spec_transform().spec_invert()->Some_0,
            r.spec_view_projection() == camera.spec_projection().spec_concat(
                camera.spec_transform().spec_invert()->Some_0,
            ),
    {
        let cam_inverse = camera.get_transform().invert().unwrap();
        let mx_proj = camera.get_projection();
        let mx_view_proj = mx_proj.concat(&cam_inverse);
        let mut culler = culler;
        culler.init();
        Context {
            culler,
            cam_inverse,
            view_projection: mx_view_proj,
            dummy: core::marker::PhantomData,
        }
    }

    /// Check entity visibility: classify the node's bound under the frame's
    /// transforms and, unless it lies fully outside, hand back the view
    /// information for drawing it.
    pub fn is_visible<N: Node<Transform = T>, VI: ViewInfo<T>>(&mut self, node: &N, bound: &B) -> (r:
        Option<VI>)
        ensures
            *final(self) == *old(self),
            ({
                let model = node.spec_transform();
                let mvp = old(self).spec_view_projection().spec_concat(model);
                let view = old(self).spec_cam_inverse().spec_concat(model);
                if old(self).spec_culler().spec_cull(*bound, mvp) != Relation::Out {
                    r == Some(VI::spec_new(mvp, view, model))
                } else {
                    r is None
                }
            }),
    {
        let model = node.get_transform();
        let view = self.cam_inverse.concat(&model);
        let mvp = self.view_projection.concat(&model);
        let rel = self.culler.cull(bound, &mvp);
        match rel {
            Relation::Out => None,
            _ => Some(ViewInfo::new(mvp, view, model)),
        }
    }

    /// Cull and draw an entity list into a stream through a phase: tally
    /// every fragment as invisible, culled, rejected or passed, enqueue the
    /// passing ones, and flush. The first construction failure aborts the
    /// pass before anything reaches the stream; a flush failure still
    /// leaves the phase's queue empty.
    pub fn draw<
        M: Material,
        E: Entity<M, Bound = B, Transform = T>,
        VI: ViewInfo<T>,
        P,
        X: Stream<P>,
        H: AbstractPhase<M, VI, P, X>,
    >(&mut self, entities: &Vec<E>, phase: &mut H, stream: &mut X) -> (r: Result<Report, Error>)
        requires
            old(phase).inv(),
            forall|k: int| 0 <= k < entities@.len() ==> frags_wf(
                (#[trigger] entities@[k]).spec_fragments(),
            ),
            tally_le(
                scene_tally(
                    old(self).spec_view_projection(),
                    old(self).spec_culler(),
                    *old(phase),
                    entities@,
                ),
                Tally {
                    invisible: u32::MAX as int,
                    culled: u32::MAX as int,
                    rejected: u32::MAX as int,
                    passed: u32::MAX as int,
                    primitives: u32::MAX as int,
                },
            ),
            old(phase).pending().len() + scene_tally(
                old(self).spec_view_projection(),
                old(self).spec_culler(),
                *old(phase),
                entities@,
            ).passed <= u32::MAX,
        ensures
            *final(self) == *old(self),
            final(phase).inv(),
            forall|m2: MeshView, mat2: M| final(phase).spec_applies(m2, mat2) == old(
                phase,
            ).spec_applies(m2, mat2),
            ({
                let t = scene_tally(
                    old(self).spec_view_projection(),
                    old(self).spec_culler(),
                    *old(phase),
                    entities@,
                );
                match r {
                    Ok(rep) => {
                        &&& rep.calls_invisible == t.invisible
                        &&& rep.calls_culled == t.culled
                        &&& rep.calls_rejected == t.rejected
                        &&& rep.calls_passed == t.passed
                        &&& rep.calls_failed == 0
                        &&& rep.primitives_rendered == t.primitives
                        &&& final(phase).pending() == Seq::<
                            crate::phase::DrawCall<P>,
                        >::empty()
                        &&& final(stream).calls().len() == old(stream).calls().len() + old(
                            phase,
                        ).pending().len() + t.passed
                    },
                    Err(Error::Batch(_)) => {
                        &&& final(stream).calls() == old(stream).calls()
                        &&& t.passed > 0
                    },
                    Err(Error::Flush(_)) => {
                        &&& final(phase).pending() == Seq::<
                            crate::phase::DrawCall<P>,
                        >::empty()
                        &&& old(phase).pending().len() + t.passed > 0
                        &&& final(stream).calls().len() < old(stream).calls().len() + old(
                            phase,
                        ).pending().len() + t.passed
                    },
                }
            }),
    {
        let ghost vp0 = self.spec_view_projection();
        let ghost culler0 = self.spec_culler();
        let ghost phase0 = *phase;
        let ghost full = scene_tally(vp0, culler0, phase0, entities@);
        let mut report = Report::new();
        let n = entities.len();
        let mut ei: usize = 0;
        while ei < n
            invariant
                ei <= n,
                n == entities@.len(),
                *self == *old(self),
                vp0 == old(self).spec_view_projection(),
                culler0 == old(self).spec_culler(),
                phase0 == *old(phase),
                full == scene_tally(vp0, culler0, phase0, entities@),
                phase.inv(),
                forall|m2: MeshView, mat2: M| phase.spec_applies(m2, mat2) == old(
                    phase,
                ).spec_applies(m2, mat2),
                forall|k: int| 0 <= k < entities@.len() ==> frags_wf(
                    (#[trigger] entities@[k]).spec_fragments(),
                ),
                tally_le(full, Tally {
                    invisible: u32::MAX as int,
                    culled: u32::MAX as int,
                    rejected: u32::MAX as int,
                    passed: u32::MAX as int,
                    primitives: u32::MAX as int,
                }),
                old(phase).pending().len() + full.passed <= u32::MAX,
                ({
                    let t = scene_tally(vp0, culler0, phase0, entities@.take(ei as int));
                    &&& report.calls_invisible == t.invisible
                    &&& report.calls_culled == t.culled
                    &&& report.calls_rejected == t.rejected
                    &&& report.calls_passed == t.passed
                    &&& report.calls_failed == 0
                    &&& report.primitives_rendered == t.primitives
                    &&& phase.pending().len() == old(phase).pending().len() + t.passed
                }),
                stream.calls() == old(stream).calls(),
            decreases n - ei,
        {
            proof {
                lemma_scene_prefix_le(vp0, culler0, phase0, entities@, ei as int);
                lemma_scene_prefix_le(vp0, culler0, phase0, entities@, ei + 1);
                assert(entities@.take(ei + 1).drop_last() =~= entities@.take(ei as int));
                assert(entities@.take(ei + 1).last() == entities@[ei as int]);
            }
            let ghost t_pre = scene_tally(vp0, culler0, phase0, entities@.take(ei as int));
            let ghost contribution = entity_contribution(vp0, culler0, phase0, entities@[ei as int]);
            let ent = &entities[ei];
            let frag_vec = ent.get_fragments();
            let fc = frag_vec.len();
            if !ent.is_visible() {
                report.calls_invisible = report.calls_invisible + fc as u32;
            } else {
                let bound = ent.get_bound();
                let visible: Option<VI> = self.is_visible(ent, &bound);
                match visible {
                    Some(view_info) => {
                        let ghost mesh0 = ent.spec_mesh();
                        let ghost frags0 = ent.spec_fragments();
                        let mut fj: usize = 0;
                        while fj < fc
                            invariant
                                fj <= fc,
                                fc == frags0.len(),
                                frag_vec@ == frags0,
                                frags_wf(frags0),
                                *self == *old(self),
                                vp0 == old(self).spec_view_projection(),
                                culler0 == old(self).spec_culler(),
                                full == scene_tally(vp0, culler0, phase0, entities@),
                                mesh0 == ent.spec_mesh(),
                                phase.inv(),
                                phase0 == *old(phase),
                                forall|m2: MeshView, mat2: M| phase.spec_applies(m2, mat2) == old(
                                    phase,
                                ).spec_applies(m2, mat2),
                                contribution == frag_counts(phase0, mesh0, frags0),
                                tally_nonneg(t_pre),
                                tally_le(tally_add(t_pre, contribution), full),
                                tally_le(full, Tally {
                                    invisible: u32::MAX as int,
                                    culled: u32::MAX as int,
                                    rejected: u32::MAX as int,
                                    passed: u32::MAX as int,
                                    primitives: u32::MAX as int,
                                }),
                                old(phase).pending().len() + full.passed <= u32::MAX,
                                ({
                                    let t = tally_add(
                                        t_pre,
                                        frag_counts(phase0, mesh0, frags0.take(fj as int)),
                                    );
                                    &&& report.calls_invisible == t.invisible
                                    &&& report.calls_culled == t.culled
                                    &&& report.calls_rejected == t.rejected
                                    &&& report.calls_passed == t.passed
                                    &&& report.calls_failed == 0
                                    &&& report.primitives_rendered == t.primitives
                                    &&& phase.pending().len() == old(phase).pending().len()
                                        + t.passed
                                }),
                                stream.calls() == old(stream).calls(),
                            decreases fc - fj,
                        {
                            proof {
                                lemma_frag_prefix_le(phase0, mesh0, frags0, fj as int);
                                lemma_frag_prefix_le(phase0, mesh0, frags0, fj + 1);
                                assert(frags0.take(fj + 1).drop_last() =~= frags0.take(fj as int));
                                assert(frags0.take(fj + 1).last() == frags0[fj as int]);
                                assert(frags0[fj as int].slice.wf());
                            }
                            let frag = &frag_vec[fj];
                            let outcome = phase.enqueue(
                                ent.get_mesh(),
                                &frag.slice,
                                &frag.material,
                                &view_info,
                            );
                            match outcome {
                                Ok(true) => {
                                    report.primitives_rendered = report.primitives_rendered
                                        + frag.slice.get_prim_count();
                                    report.calls_passed = report.calls_passed + 1;
                                },
                                Ok(false) => {
                                    report.calls_rejected = report.calls_rejected + 1;
                                },
                                Err(e) => {
                                    proof {
                                        // the failing fragment was an applying one, so the
                                        // full tally counts at least one passing fragment
                                        assert(phase0.spec_applies(
                                            mesh0,
                                            frags0[fj as int].material,
                                        ));
                                        assert(frag_contribution(
                                            phase0,
                                            mesh0,
                                            frags0[fj as int],
                                        ).passed == 1);
                                        assert(frag_counts(
                                            phase0,
                                            mesh0,
                                            frags0.take(fj + 1),
                                        ).passed >= 1);
                                        assert(full.passed > 0);
                                    }
                                    return Err(Error::Batch(e));
                                },
                            }
                            fj = fj + 1;
                        }
                        proof {
                            assert(frags0.take(fc as int) =~= frags0);
                        }
                    },
                    None => {
                        report.calls_culled = report.calls_culled + fc as u32;
                    },
                }
            }
            ei = ei + 1;
        }
        proof {
            assert(entities@.take(n as int) =~= entities@);
        }
        // flush into the stream
        let flushed = phase.flush(stream);
        match flushed {
            Ok(()) => Ok(report),
            Err(e) => Err(Error::Flush(e)),
        }
    }
}

} // verus!
