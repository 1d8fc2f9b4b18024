//! The render-phase engine: a Technique decides applicability and compiles
//! kernels into batches, a Memory skips redundant compilation, a Queue
//! accumulates the resulting render objects, and `flush` hands them to an
//! output stream in sorted order, isolating failures.

use vstd::prelude::*;
use core::cmp::Ordering;
use crate::memory::{CacheMap, Fingerprint, MemResult, Memory};
use crate::queue::{perm_of, OrderFn, Queue};
use crate::types::{
    merged_mesh, spec_link, Attribute, Batch, BatchError, BatchView, DrawError, DrawState,
    FlushError, Mesh, MeshView, Program, ProgramView, Slice,
};

verus! {

/// Abstract material: an opaque, technique-specific surface-property bag.
/// The phase never interprets it, only hands it to the technique.
pub trait Material: Sized {

}

/// View information that can be turned into a sortable depth value.
pub trait ToDepth: Sized {
    /// The depth this view information stands at.
    spec fn spec_depth(&self) -> i64;

    /// Convert to depth.
    fn to_depth(&self) -> (d: i64)
        ensures
            d == self.spec_depth(),
    ;
}

/// Everything a technique compilation yields: a program, a parameter block,
/// a draw state, and optional instancing (an instance count plus extra
/// per-instance attributes to merge into the mesh).
pub struct TechResult<P> {
    /// Shader program to draw with.
    pub program: Program,
    /// Freshly defaulted shader parameters.
    pub params: P,
    /// Draw state to bind.
    pub state: DrawState,
    /// Instance count and extra per-instance attributes, if instanced.
    pub instancing: Option<(u32, Vec<Attribute>)>,
}

/// Mathematical image of a [`TechResult`].
pub struct TechSpec<P> {
    /// Shader program to draw with.
    pub program: ProgramView,
    /// Freshly defaulted shader parameters.
    pub params: P,
    /// Draw state to bind.
    pub state: DrawState,
    /// Instance count and extra per-instance attributes, if instanced.
    pub instancing: Option<(u32, Seq<Attribute>)>,
}

impl<P> View for TechResult<P> {
    type V = TechSpec<P>;

    open spec fn view(&self) -> TechSpec<P> {
        TechSpec {
            program: self.program@,
            params: self.params,
            state: self.state,
            instancing: match self.instancing {
                Some((num, extra)) => Some((num, extra@)),
                None => None,
            },
        }
    }
}

/// Technique: decides whether a mesh/material pair can be drawn, classifies
/// it into a kernel, compiles a kernel with view data into batch
/// ingredients, and patches per-draw parameters. All three operations are
/// deterministic functions of their arguments, which is what makes kernels
/// usable as cache keys.
pub trait Technique<M: Material, V: ToDepth>: Sized {
    /// The most important part of an entity: enough to decide which program
    /// and state to use on it, and compact enough to key a cache with.
    type Kernel: Fingerprint + Copy;

    /// Associated shader parameter block.
    type Params: Copy;

    /// What `test` decides: the kernel for a mesh/material pair, or nothing
    /// when the technique does not apply.
    spec fn spec_test(&self, mesh: MeshView, material: M) -> Option<Self::Kernel>;

    /// Test whether this mesh/material pair can be drawn by the technique.
    fn test(&self, mesh: &Mesh, material: &M) -> (r: Option<Self::Kernel>)
        ensures
            r == self.spec_test(mesh@, *material),
    ;

    /// What `compile` produces for a kernel and view data.
    spec fn spec_compile(&self, kernel: Self::Kernel, view: V) -> TechSpec<Self::Params>;

    /// Compile a kernel with view data into a program, parameter block,
    /// draw state, and optional instancing.
    fn compile(&self, kernel: Self::Kernel, view: &V) -> (r: TechResult<Self::Params>)
        ensures
            r@ == self.spec_compile(kernel, *view),
    ;

    /// What `fix_params` leaves in the parameter block.
    spec fn spec_fix(&self, material: M, view: V, params: Self::Params) -> Self::Params;

    /// Patch the per-draw fields of a parameter block from the current
    /// material and view data; applied to fresh and to recalled blocks
    /// alike, so per-frame values stay current when compilation is skipped.
    fn fix_params(&self, material: &M, view: &V, params: &mut Self::Params)
        ensures
            *final(params) == self.spec_fix(*material, *view, *old(params)),
    ;
}

/// One draw call as the output target sees it: GPU handles, the geometry
/// slice, the parameter block, and the instance count.
pub struct DrawCall<P> {
    /// Program handle.
    pub program: u64,
    /// Mesh identity.
    pub mesh_id: u64,
    /// Geometry sub-range to draw.
    pub slice: Slice,
    /// Shader parameters bound for the call.
    pub params: P,
    /// Draw state bound for the call.
    pub state: DrawState,
    /// Instance count, for instanced draws.
    pub instances: Option<u32>,
}

impl<P: Copy> Clone for DrawCall<P> {
    fn clone(&self) -> (r: Self)
        ensures
            r == *self,
    {
        *self
    }
}

impl<P: Copy> Copy for DrawCall<P> {

}

/// An abstract output target: accepts bound batches one draw call at a
/// time, and may reject one. Its history of accepted calls is the
/// specification-level face of the GPU.
pub trait Stream<P>: Sized {
    /// The draw calls accepted so far, oldest first.
    spec fn calls(&self) -> Seq<DrawCall<P>>;

    /// Issue one draw call. An accepted call is appended to the history; a
    /// rejected one leaves the target as it was.
    fn draw(&mut self, call: DrawCall<P>) -> (r: Result<(), DrawError>)
        ensures
            match r {
                Ok(()) => final(self).calls() == old(self).calls().push(call),
                Err(_) => final(self).calls() == old(self).calls(),
            },
    ;
}

/// A rendering object, encapsulating the batch and the additional info
/// needed for sorting and cache bookkeeping.
pub struct Object<K, P> {
    /// The compiled program/mesh link.
    pub batch: Batch,
    /// Shader parameters, patched per draw.
    pub params: P,
    /// Geometry sub-range to draw.
    pub slice: Slice,
    /// Instance count, for instanced draws.
    pub instances: Option<u32>,
    /// Depth value used by the depth sort orders.
    pub depth: i64,
    /// The kernel this object was compiled or recalled for.
    pub kernel: K,
    /// Draw state to bind.
    pub state: DrawState,
}

/// Mathematical image of an [`Object`].
pub struct ObjectView<K, P> {
    /// The compiled program/mesh link.
    pub batch: BatchView,
    /// Shader parameters.
    pub params: P,
    /// Geometry sub-range to draw.
    pub slice: Slice,
    /// Instance count.
    pub instances: Option<u32>,
    /// Depth value.
    pub depth: i64,
    /// Originating kernel.
    pub kernel: K,
    /// Draw state.
    pub state: DrawState,
}

impl<K: Copy, P: Copy> View for Object<K, P> {
    type V = ObjectView<K, P>;

    open spec fn view(&self) -> ObjectView<K, P> {
        ObjectView {
            batch: self.batch@,
            params: self.params,
            slice: self.slice,
            instances: self.instances,
            depth: self.depth,
            kernel: self.kernel,
            state: self.state,
        }
    }
}

impl<K: Copy, P: Copy> Clone for Object<K, P> {
    /// Cloning preserves the object's whole image.
    fn clone(&self) -> (r: Self)
        ensures
            r@ == self@,
    {
        Object {
            batch: self.batch.clone(),
            params: self.params,
            slice: self.slice,
            instances: self.instances,
            depth: self.depth,
            kernel: self.kernel,
            state: self.state,
        }
    }
}

/// The draw call an object view stands for.
pub open spec fn call_of<K, P>(o: ObjectView<K, P>) -> DrawCall<P> {
    DrawCall {
        program: o.batch.program.id,
        mesh_id: o.batch.mesh.id,
        slice: o.slice,
        params: o.params,
        state: o.state,
        instances: o.instances,
    }
}

/// Three-way comparison of two depth values.
pub open spec fn spec_cmp_depth(a: i64, b: i64) -> Ordering {
    if a < b {
        Ordering::Less
    } else if a == b {
        Ordering::Equal
    } else {
        Ordering::Greater
    }
}

impl<K: Copy, P: Copy> Object<K, P> {
    /// Compare by depth. Depth values are totally ordered here, so no tie
    /// fallback is needed.
    pub fn cmp_depth(&self, other: &Object<K, P>) -> (r: Ordering)
        ensures
            r == spec_cmp_depth(self.depth, other.depth),
    {
        if self.depth < other.depth {
            Ordering::Less
        } else if self.depth == other.depth {
            Ordering::Equal
        } else {
            Ordering::Greater
        }
    }

    /// Issue this object as one draw call to the given stream.
    pub fn draw<X: Stream<P>>(&self, stream: &mut X) -> (r: Result<(), DrawError>)
        ensures
            match r {
                Ok(()) => final(stream).calls() == old(stream).calls().push(call_of(self@)),
                Err(_) => final(stream).calls() == old(stream).calls(),
            },
    {
        let call = DrawCall {
            program: self.batch.program(),
            mesh_id: self.batch.mesh().id,
            slice: self.slice,
            params: self.params,
            state: self.state,
            instances: self.instances,
        };
        stream.draw(call)
    }
}

/// The closed set of standard sorting criteria for a phase's queue.
#[derive(Clone, Copy, PartialEq, Eq, Structural, Debug)]
pub enum Sort {
    /// By depth, front-to-back. Useful for opaque objects that update the
    /// depth buffer: near objects occlude more pixels, leaving less work
    /// for the farther ones.
    FrontToBack,
    /// By depth, back-to-front. Useful for transparent objects, since
    /// blending must account for everything that lies behind.
    BackToFront,
    /// By shader program. Switching programs is one of the heaviest state
    /// changes, so this helps when depth order does not matter.
    Program,
    /// By mesh attribute buffers, minimizing vertex format changes. Ties
    /// between meshes whose buffer lists share a prefix are broken by
    /// list length.
    Mesh,
    /// By draw state.
    DrawState,
}

/// The attribute buffers of a mesh, as an integer key sequence.
pub open spec fn mesh_key(m: MeshView) -> Seq<int> {
    m.attributes.map_values(|a: Attribute| a.buffer as int)
}

/// The integer key sequence a criterion sorts an object by.
pub open spec fn sort_key<K, P>(s: Sort, o: ObjectView<K, P>) -> Seq<int> {
    match s {
        Sort::FrontToBack => seq![o.depth as int],
        Sort::BackToFront => seq![-(o.depth as int)],
        Sort::Program => seq![o.batch.program.id as int],
        Sort::Mesh => mesh_key(o.batch.mesh),
        Sort::DrawState => seq![o.state.id as int],
    }
}

/// Lexicographic order on integer key sequences; a prefix comes before any
/// extension of it.
pub open spec fn lex_le(a: Seq<int>, b: Seq<int>) -> bool
    decreases a.len(),
{
    if a.len() == 0 {
        true
    } else if b.len() == 0 {
        false
    } else if a[0] < b[0] {
        true
    } else if a[0] > b[0] {
        false
    } else {
        lex_le(a.drop_first(), b.drop_first())
    }
}

/// Any two key sequences compare one way or the other.
pub proof fn lemma_lex_total(a: Seq<int>, b: Seq<int>)
    ensures
        lex_le(a, b) || lex_le(b, a),
    decreases a.len(),
{
    if a.len() > 0 && b.len() > 0 && a[0] == b[0] {
        lemma_lex_total(a.drop_first(), b.drop_first());
    }
}

/// Lexicographic order is transitive.
pub proof fn lemma_lex_trans(a: Seq<int>, b: Seq<int>, c: Seq<int>)
    requires
        lex_le(a, b),
        lex_le(b, c),
    ensures
        lex_le(a, c),
    decreases a.len(),
{
    if a.len() > 0 && b.len() > 0 && c.len() > 0 && a[0] == b[0] && b[0] == c[0] {
        lemma_lex_trans(a.drop_first(), b.drop_first(), c.drop_first());
    }
}

/// On single-element keys, lexicographic order is the integer order.
proof fn lemma_lex_single(x: int, y: int)
    ensures
        lex_le(seq![x], seq![y]) == (x <= y),
{
    reveal_with_fuel(lex_le, 3);
    assert(seq![x].drop_first() =~= Seq::<int>::empty());
    assert(seq![y].drop_first() =~= Seq::<int>::empty());
}

/// The ordering a criterion induces on object views.
pub open spec fn sort_le<K, P>(s: Sort, a: ObjectView<K, P>, b: ObjectView<K, P>) -> bool {
    lex_le(sort_key(s, a), sort_key(s, b))
}

impl<K: Copy, P: Copy> OrderFn<Object<K, P>> for Sort {
    open spec fn le(&self, a: Object<K, P>, b: Object<K, P>) -> bool {
        sort_le(*self, a@, b@)
    }

    proof fn lemma_total(&self, a: Object<K, P>, b: Object<K, P>) {
        lemma_lex_total(sort_key(*self, a@), sort_key(*self, b@));
    }

    proof fn lemma_trans(&self, a: Object<K, P>, b: Object<K, P>, c: Object<K, P>) {
        lemma_lex_trans(sort_key(*self, a@), sort_key(*self, b@), sort_key(*self, c@));
    }

    fn leq(&self, a: &Object<K, P>, b: &Object<K, P>) -> (r: bool) {
        match self {
            Sort::FrontToBack => {
                proof {
                    lemma_lex_single(a.depth as int, b.depth as int);
                }
                a.depth <= b.depth
            },
            Sort::BackToFront => {
                proof {
                    lemma_lex_single(-(a.depth as int), -(b.depth as int));
                }
                b.depth <= a.depth
            },
            Sort::Program => {
                proof {
                    lemma_lex_single(a@.batch.program.id as int, b@.batch.program.id as int);
                }
                a.batch.program() <= b.batch.program()
            },
            Sort::Mesh => lex_le_buffers(a.batch.mesh(), b.batch.mesh()),
            Sort::DrawState => {
                proof {
                    lemma_lex_single(a.state.id as int, b.state.id as int);
                }
                a.state.id <= b.state.id
            },
        }
    }
}

/// Decide the lexicographic buffer order of two meshes.
fn lex_le_buffers(a: &Mesh, b: &Mesh) -> (r: bool)
    ensures
        r == lex_le(mesh_key(a@), mesh_key(b@)),
{
    let na = a.attributes.len();
    let nb = b.attributes.len();
    let ghost ka = mesh_key(a@);
    let ghost kb = mesh_key(b@);
    proof {
        assert(ka.skip(0) =~= ka);
        assert(kb.skip(0) =~= kb);
    }
    let mut i: usize = 0;
    loop
        invariant
            0 <= i <= na,
            0 <= i <= nb,
            na == a.attributes@.len(),
            nb == b.attributes@.len(),
            ka == mesh_key(a@),
            kb == mesh_key(b@),
            lex_le(ka, kb) == lex_le(ka.skip(i as int), kb.skip(i as int)),
        decreases na - i,
    {
        if i >= na {
            proof {
                assert(ka.skip(i as int) =~= Seq::<int>::empty());
            }
            return true;
        }
        if i >= nb {
            proof {
                assert(kb.skip(i as int) =~= Seq::<int>::empty());
                assert(ka.skip(i as int).len() > 0);
            }
            return false;
        }
        let x = a.attributes[i].buffer;
        let y = b.attributes[i].buffer;
        proof {
            assert(ka.skip(i as int)[0] == x as int);
            assert(kb.skip(i as int)[0] == y as int);
        }
        if x < y {
            return true;
        }
        if x > y {
            return false;
        }
        proof {
            assert(ka.skip(i as int).drop_first() =~= ka.skip(i + 1));
            assert(kb.skip(i as int).drop_first() =~= kb.skip(i + 1));
        }
        i = i + 1;
    }
}

/// Three-way comparison of two handles.
pub open spec fn spec_cmp_u64(a: u64, b: u64) -> Ordering {
    if a < b {
        Ordering::Less
    } else if a == b {
        Ordering::Equal
    } else {
        Ordering::Greater
    }
}

/// The zip comparison of two key sequences: the first differing position
/// decides; sequences whose common prefix is equal compare equal.
pub open spec fn zip_cmp(a: Seq<int>, b: Seq<int>) -> Ordering
    decreases a.len(),
{
    if a.len() == 0 || b.len() == 0 {
        Ordering::Equal
    } else if a[0] < b[0] {
        Ordering::Less
    } else if a[0] > b[0] {
        Ordering::Greater
    } else {
        zip_cmp(a.drop_first(), b.drop_first())
    }
}

/// Sort by depth, front-to-back.
pub fn front_to_back<K: Copy, P: Copy>(a: &Object<K, P>, b: &Object<K, P>) -> (r: Ordering)
    ensures
        r == spec_cmp_depth(a.depth, b.depth),
{
    a.cmp_depth(b)
}

/// Sort by depth, back-to-front.
pub fn back_to_front<K: Copy, P: Copy>(a: &Object<K, P>, b: &Object<K, P>) -> (r: Ordering)
    ensures
        r == spec_cmp_depth(b.depth, a.depth),
{
    b.cmp_depth(a)
}

/// Sort by shader program handle.
pub fn program<K: Copy, P: Copy>(a: &Object<K, P>, b: &Object<K, P>) -> (r: Ordering)
    ensures
        r == spec_cmp_u64(a@.batch.program.id, b@.batch.program.id),
{
    let x = a.batch.program();
    let y = b.batch.program();
    if x < y {
        Ordering::Less
    } else if x == y {
        Ordering::Equal
    } else {
        Ordering::Greater
    }
}

/// Compare by mesh attribute buffers, first difference deciding; buffer
/// lists that agree on their common prefix compare equal.
pub fn mesh<K: Copy, P: Copy>(a: &Object<K, P>, b: &Object<K, P>) -> (r: Ordering)
    ensures
        r == zip_cmp(mesh_key(a@.batch.mesh), mesh_key(b@.batch.mesh)),
{
    let am = a.batch.mesh();
    let bm = b.batch.mesh();
    let na = am.attributes.len();
    let nb = bm.attributes.len();
    let ghost ka = mesh_key(am@);
    let ghost kb = mesh_key(bm@);
    proof {
        assert(ka.skip(0) =~= ka);
        assert(kb.skip(0) =~= kb);
    }
    let mut i: usize = 0;
    loop
        invariant
            0 <= i <= na,
            0 <= i <= nb,
            na == am.attributes@.len(),
            nb == bm.attributes@.len(),
            am@ == a@.batch.mesh,
            bm@ == b@.batch.mesh,
            ka == mesh_key(am@),
            kb == mesh_key(bm@),
            zip_cmp(ka, kb) == zip_cmp(ka.skip(i as int), kb.skip(i as int)),
        decreases na - i,
    {
        if i >= na || i >= nb {
            proof {
                assert(ka.skip(i as int).len() == 0 || kb.skip(i as int).len() == 0);
            }
            return Ordering::Equal;
        }
        let x = am.attributes[i].buffer;
        let y = bm.attributes[i].buffer;
        proof {
            assert(ka.skip(i as int)[0] == x as int);
            assert(kb.skip(i as int)[0] == y as int);
        }
        if x < y {
            return Ordering::Less;
        }
        if x > y {
            return Ordering::Greater;
        }
        proof {
            assert(ka.skip(i as int).drop_first() =~= ka.skip(i + 1));
            assert(kb.skip(i as int).drop_first() =~= kb.skip(i + 1));
        }
        i = i + 1;
    }
}

/// What a single enqueue does, at the specification level: the returned
/// result, the objects appended to the queue (none or one), and the memory
/// contents afterwards.
#[verifier::reject_recursive_types(K)]
pub struct EnqueueStep<K, P> {
    /// The result the call returns.
    pub result: Result<bool, BatchError>,
    /// The object views appended to the queue.
    pub appended: Seq<ObjectView<K, P>>,
    /// The memory contents after the call.
    pub mem_after: Map<(K, u64), Result<ObjectView<K, P>, BatchError>>,
}

/// A recalled object with its geometry slice and depth refreshed and its
/// parameter block re-patched; batch, kernel, state and instancing stay.
pub open spec fn refreshed<K, P>(o: ObjectView<K, P>, slice: Slice, depth: i64, params: P) -> ObjectView<K, P> {
    ObjectView { slice, depth, params, ..o }
}

/// The image of a phase memory, object values taken to their views.
pub open spec fn view_mem<K: Copy, P: Copy>(
    m: Map<(K, u64), MemResult<Object<K, P>>>,
) -> Map<(K, u64), Result<ObjectView<K, P>, BatchError>> {
    Map::new(
        |key: (K, u64)| m.contains_key(key),
        |key: (K, u64)|
            match m[key] {
                Ok(o) => Ok(o@),
                Err(e) => Err(e),
            },
    )
}

/// The enqueue transition. The cache key is the kernel paired with the mesh
/// identity; `caching` says whether outcomes are remembered. On a remembered
/// success the stored object is recalled with slice, depth and parameters
/// refreshed and no compilation happens; a remembered failure is returned
/// as-is; otherwise the technique compiles, the batch is linked (against the
/// instancing-merged mesh if the technique asked for extra attributes), and
/// the outcome is remembered.
pub open spec fn spec_enqueue<M: Material, V: ToDepth, T: Technique<M, V>>(
    tech: T,
    caching: bool,
    mem: Map<(T::Kernel, u64), Result<ObjectView<T::Kernel, T::Params>, BatchError>>,
    mesh: MeshView,
    slice: Slice,
    material: M,
    view: V,
) -> EnqueueStep<T::Kernel, T::Params> {
    match tech.spec_test(mesh, material) {
        Option::None => EnqueueStep { result: Ok(false), appended: Seq::empty(), mem_after: mem },
        Option::Some(kernel) => {
            let key = (kernel, mesh.id);
            let depth = view.spec_depth();
            if mem.contains_key(key) {
                match mem[key] {
                    Ok(o) => EnqueueStep {
                        result: Ok(true),
                        appended: seq![
                            refreshed(o, slice, depth, tech.spec_fix(material, view, o.params)),
                        ],
                        mem_after: mem,
                    },
                    Err(e) => EnqueueStep {
                        result: Err(e),
                        appended: Seq::empty(),
                        mem_after: mem,
                    },
                }
            } else {
                let tr = tech.spec_compile(kernel, view);
                let params = tech.spec_fix(material, view, tr.params);
                let instances = match tr.instancing {
                    Some((num, extra)) => Some(num),
                    None => None,
                };
                let link_mesh = match tr.instancing {
                    Some((num, extra)) => merged_mesh(mesh, extra),
                    None => mesh,
                };
                match spec_link(tr.program, link_mesh) {
                    Ok(bv) => {
                        let o = ObjectView {
                            batch: bv,
                            params,
                            slice,
                            instances,
                            depth,
                            kernel,
                            state: tr.state,
                        };
                        EnqueueStep {
                            result: Ok(true),
                            appended: seq![o],
                            mem_after: if caching {
                                mem.insert(key, Ok(o))
                            } else {
                                mem
                            },
                        }
                    },
                    Err(e) => EnqueueStep {
                        result: Err(e),
                        appended: Seq::empty(),
                        mem_after: if caching {
                            mem.insert(key, Err(e))
                        } else {
                            mem
                        },
                    },
                }
            }
        },
    }
}

/// Phase does batch construction, accumulation and memoization, based on a
/// given technique.
pub struct Phase<M: Material, V: ToDepth, T: Technique<M, V>, Y> {
    /// Phase name.
    pub name: String,
    /// Contained technique.
    pub technique: T,
    /// Sorting criteria; the first one, if any, orders each flush.
    pub sort: Vec<Sort>,
    /// Phase memory.
    memory: Y,
    /// Sorted draw queue.
    queue: Queue<Object<T::Kernel, T::Params>>,
    marker: core::marker::PhantomData<(M, V)>,
}

/// A render phase that remembers created render objects.
pub type CachedPhase<M, V, T> = Phase<
    M,
    V,
    T,
    CacheMap<
        (<T as Technique<M, V>>::Kernel, u64),
        Object<<T as Technique<M, V>>::Kernel, <T as Technique<M, V>>::Params>,
    >,
>;

impl<
    M: Material,
    V: ToDepth,
    T: Technique<M, V>,
    Y: Memory<(T::Kernel, u64), Object<T::Kernel, T::Params>>,
> Phase<M, V, T, Y> {
    /// The contained technique, for contracts.
    pub closed spec fn tech(&self) -> T {
        self.technique
    }

    /// The configured sorting criteria, for contracts.
    pub closed spec fn sort_view(&self) -> Seq<Sort> {
        self.sort@
    }

    /// The phase name, for contracts.
    pub closed spec fn name_view(&self) -> Seq<char> {
        self.name@
    }

    /// Whether this phase remembers construction outcomes.
    pub closed spec fn caching(&self) -> bool {
        Y::caching()
    }

    /// The accumulated queue, in insertion order.
    pub closed spec fn queue_view(&self) -> Seq<ObjectView<T::Kernel, T::Params>> {
        self.queue.objs().map_values(|o: Object<T::Kernel, T::Params>| o@)
    }

    /// The remembered outcomes.
    pub closed spec fn mem_view(&self) -> Map<
        (T::Kernel, u64),
        Result<ObjectView<T::Kernel, T::Params>, BatchError>,
    > {
        view_mem(self.memory.contents())
    }

    /// The queue's index order (an implementation detail of re-sorting).
    pub closed spec fn queue_ids(&self) -> Seq<u32> {
        self.queue.ids()
    }

    /// Well-formed phase: the queue indices form a permutation, and every
    /// remembered object carries the kernel of its own key — so a recall
    /// can never hand back an object compiled for another kernel.
    pub open spec fn wf(&self) -> bool {
        &&& perm_of(self.queue_ids(), self.queue_ids().len() as int)
        &&& forall|key: (T::Kernel, u64)| #[trigger] self.mem_view().contains_key(key)
            ==> match self.mem_view()[key] {
                Ok(o) => o.kernel == key.0,
                Err(_) => true,
            }
    }

    /// Check whether the technique applies to a mesh/material pair.
    pub fn does_apply(&self, mesh: &Mesh, material: &M) -> (r: bool)
        ensures
            r == (self.tech().spec_test(mesh@, *material) is Some),
    {
        self.technique.test(mesh, material).is_some()
    }

    /// Add an entity's fragment to the queue: re-derive the kernel, recall
    /// or compile its render object, and append it on success. `Ok(false)`
    /// means the technique does not apply (a routing decision, not an
    /// error); a construction failure is returned and, with caching on,
    /// remembered so it is never retried.
    pub fn enqueue(&mut self, orig_mesh: &Mesh, slice: &Slice, material: &M, view_info: &V) -> (r:
        Result<bool, BatchError>)
        requires
            old(self).wf(),
        ensures
            final(self).wf(),
            final(self).tech() == old(self).tech(),
            final(self).sort_view() == old(self).sort_view(),
            final(self).name_view() == old(self).name_view(),
            final(self).caching() == old(self).caching(),
            final(self).queue_ids() == old(self).queue_ids(),
            ({
                let step = spec_enqueue(
                    old(self).tech(),
                    old(self).caching(),
                    old(self).mem_view(),
                    orig_mesh@,
                    *slice,
                    *material,
                    *view_info,
                );
                &&& r == step.result
                &&& final(self).queue_view() == old(self).queue_view() + step.appended
                &&& final(self).mem_view() == step.mem_after
            }),
    {
        let ghost step = spec_enqueue(
            old(self).tech(),
            old(self).caching(),
            old(self).mem_view(),
            orig_mesh@,
            *slice,
            *material,
            *view_info,
        );
        let kernel = match self.technique.test(orig_mesh, material) {
            Some(k) => k,
            None => {
                proof {
                    assert(self.queue_view() =~= self.queue_view() + step.appended);
                }
                return Ok(false);
            },
        };
        let depth = view_info.to_depth();
        let key = (kernel, orig_mesh.id);
        // Try recalling from memory.
        let recalled: Option<MemResult<Object<T::Kernel, T::Params>>> = match self.memory.lookup(
            &key,
        ) {
            Some(entry) => match entry {
                Ok(o) => Some(Ok(o.clone())),
                Err(e) => Some(Err(*e)),
            },
            None => None,
        };
        match recalled {
            Some(Ok(mut o)) => {
                o.slice = *slice;
                o.depth = depth;
                // the memory invariant rules the memoization bug out
                proof {
                    assert(o.kernel == kernel);
                }
                self.technique.fix_params(material, view_info, &mut o.params);
                let ghost ov = o@;
                self.queue.push(o);
                proof {
                    assert(self.queue_view() =~= old(self).queue_view() + seq![ov]);
                    assert(step.appended == seq![ov]);
                }
                return Ok(true);
            },
            Some(Err(e)) => {
                proof {
                    assert(self.queue_view() =~= self.queue_view() + step.appended);
                }
                return Err(e);
            },
            None => {},
        }
        // Compile with the technique.
        let tr = self.technique.compile(kernel, view_info);
        let mut params = tr.params;
        self.technique.fix_params(material, view_info, &mut params);
        let (instances, link_mesh): (Option<u32>, Mesh) = match tr.instancing {
            Some((num, extra)) => {
                let mut temp = Mesh::new(orig_mesh.id, orig_mesh.num_vertices);
                let n1 = orig_mesh.attributes.len();
                let mut i: usize = 0;
                while i < n1
                    invariant
                        i <= n1,
                        n1 == orig_mesh.attributes@.len(),
                        temp.id == orig_mesh.id,
                        temp.num_vertices == orig_mesh.num_vertices,
                        temp.attributes@ == orig_mesh.attributes@.take(i as int),
                    decreases n1 - i,
                {
                    temp.attributes.push(orig_mesh.attributes[i]);
                    proof {
                        assert(temp.attributes@ =~= orig_mesh.attributes@.take(i + 1));
                    }
                    i = i + 1;
                }
                let n2 = extra.len();
                let mut j: usize = 0;
                while j < n2
                    invariant
                        j <= n2,
                        n2 == extra@.len(),
                        n1 == orig_mesh.attributes@.len(),
                        temp.id == orig_mesh.id,
                        temp.num_vertices == orig_mesh.num_vertices,
                        temp.attributes@ == orig_mesh.attributes@.take(n1 as int) + extra@.take(
                            j as int,
                        ),
                    decreases n2 - j,
                {
                    temp.attributes.push(extra[j]);
                    proof {
                        assert(temp.attributes@ =~= orig_mesh.attributes@.take(n1 as int)
                            + extra@.take(j + 1));
                    }
                    j = j + 1;
                }
                proof {
                    assert(temp@.attributes =~= merged_mesh(orig_mesh@, extra@).attributes);
                }
                (Some(num), temp)
            },
            None => (None, orig_mesh.clone()),
        };
        // Create the queue object.
        let object: MemResult<Object<T::Kernel, T::Params>> = match Batch::new(
            link_mesh,
            tr.program,
        ) {
            Ok(b) => Ok(
                Object {
                    batch: b,
                    params,
                    slice: *slice,
                    instances,
                    depth,
                    kernel,
                    state: tr.state,
                },
            ),
            Err(e) => Err(e),
        };
        // Remember and return.
        let remembered: MemResult<Object<T::Kernel, T::Params>> = match &object {
            Ok(o) => Ok(o.clone()),
            Err(e) => Err(*e),
        };
        self.memory.store(key, remembered);
        proof {
            assert(self.mem_view() =~= step.mem_after);
        }
        match object {
            Ok(o) => {
                let ghost ov = o@;
                self.queue.push(o);
                proof {
                    assert(self.queue_view() =~= old(self).queue_view() + seq![ov]);
                    assert(step.appended == seq![ov]);
                }
                Ok(true)
            },
            Err(e) => {
                proof {
                    assert(self.queue_view() =~= self.queue_view() + step.appended);
                }
                Err(e)
            },
        }
    }
}

/// The draw calls a sequence of object views stands for, in order.
pub open spec fn calls_of<K, P>(s: Seq<ObjectView<K, P>>) -> Seq<DrawCall<P>> {
    s.map_values(|o: ObjectView<K, P>| call_of(o))
}

/// `a` holds exactly the elements of `b`, rearranged by some permutation of
/// positions.
pub open spec fn reordering_of<A>(a: Seq<A>, b: Seq<A>) -> bool {
    exists|ids: Seq<u32>|
        {
            &&& perm_of(ids, b.len() as int)
            &&& a.len() == b.len()
            &&& forall|j: int| 0 <= j < a.len() ==> a[j] == b[#[trigger] ids[j] as int]
        }
}

impl<
    M: Material,
    V: ToDepth,
    T: Technique<M, V>,
    Y: Memory<(T::Kernel, u64), Object<T::Kernel, T::Params>>,
> Phase<M, V, T, Y> {
    /// Flush the accumulated queue into a stream: re-sort by the first
    /// configured criterion (insertion order when none is configured), issue
    /// one draw call per object in that order, and stop at the first
    /// rejected call. Whatever the outcome, the queue is emptied, so the
    /// next frame starts fresh; the memory is kept.
    pub fn flush<X: Stream<T::Params>>(&mut self, stream: &mut X) -> (r: Result<(), FlushError>)
        requires
            old(self).wf(),
            old(self).queue_view().len() <= u32::MAX,
        ensures
            final(self).wf(),
            final(self).queue_view() == Seq::<ObjectView<T::Kernel, T::Params>>::empty(),
            final(self).mem_view() == old(self).mem_view(),
            final(self).tech() == old(self).tech(),
            final(self).sort_view() == old(self).sort_view(),
            final(self).name_view() == old(self).name_view(),
            final(self).caching() == old(self).caching(),
            exists|emitted: Seq<ObjectView<T::Kernel, T::Params>>|
                {
                    &&& #[trigger] reordering_of(emitted, old(self).queue_view())
                    &&& (old(self).sort_view().len() == 0 ==> emitted == old(self).queue_view())
                    &&& (old(self).sort_view().len() > 0 ==> forall|p: int, q: int|
                        0 <= p < q < emitted.len() ==> sort_le(
                            old(self).sort_view()[0],
                            #[trigger] emitted[p],
                            #[trigger] emitted[q],
                        ))
                    &&& match r {
                        Ok(()) => final(stream).calls() == old(stream).calls() + calls_of(emitted),
                        Err(_) => exists|n: int|
                            0 <= n < emitted.len() && final(stream).calls() == old(stream).calls()
                                + (#[trigger] calls_of(emitted).take(n)),
                    }
                },
    {
        let has_sort = self.sort.len() > 0;
        if has_sort {
            let criterion = self.sort[0];
            self.queue.sort(&criterion);
        }
        let ghost emitted: Seq<ObjectView<T::Kernel, T::Params>> = if has_sort {
            self.queue.ordered_view().map_values(|o: Object<T::Kernel, T::Params>| o@)
        } else {
            old(self).queue_view()
        };
        proof {
            if has_sort {
                let ids = self.queue.ids();
                assert(reordering_of(emitted, old(self).queue_view())) by {
                    assert(perm_of(ids, old(self).queue_view().len() as int));
                    assert(forall|j: int| 0 <= j < emitted.len() ==> emitted[j] == old(
                        self,
                    ).queue_view()[#[trigger] ids[j] as int]);
                }
            } else {
                let ids = Seq::new(old(self).queue_view().len(), |j: int| j as u32);
                assert(reordering_of(emitted, old(self).queue_view())) by {
                    assert(perm_of(ids, old(self).queue_view().len() as int));
                    assert(forall|j: int| 0 <= j < emitted.len() ==> emitted[j] == old(
                        self,
                    ).queue_view()[#[trigger] ids[j] as int]);
                }
            }
        }
        let ghost calls_seq = calls_of(emitted);
        let n = self.queue.len();
        let mut k: usize = 0;
        let mut failure: Option<FlushError> = None;
        while k < n && failure.is_none()
            invariant
                k <= n,
                n == self.queue_view().len(),
                n == emitted.len(),
                self.wf(),
                has_sort ==> self.queue.ready() && n == self.queue.ordered_view().len() && forall|
                    j: int,
                |
                    0 <= j < n ==> emitted[j] == (#[trigger] self.queue.ordered_view()[j])@,
                !has_sort ==> forall|j: int| 0 <= j < n ==> emitted[j] == #[trigger] self.queue_view()[j],
                self.mem_view() == old(self).mem_view(),
                self.tech() == old(self).tech(),
                self.sort_view() == old(self).sort_view(),
                self.name_view() == old(self).name_view(),
                calls_seq == calls_of(emitted),
                stream.calls() == old(stream).calls() + calls_seq.take(k as int),
                failure is Some ==> k < n,
            ensures
                k <= n,
                self.wf(),
                self.mem_view() == old(self).mem_view(),
                self.tech() == old(self).tech(),
                self.sort_view() == old(self).sort_view(),
                self.name_view() == old(self).name_view(),
                stream.calls() == old(stream).calls() + calls_seq.take(k as int),
                failure is None ==> k == n,
                failure is Some ==> k < n,
            decreases n - k + (if failure is Some {
                0int
            } else {
                1int
            }),
        {
            let outcome = if has_sort {
                let o = self.queue.get_order(k);
                proof {
                    assert(emitted[k as int] == (self.queue.ordered_view()[k as int])@);
                    assert(o@ == emitted[k as int]);
                }
                o.draw(stream)
            } else {
                let o = self.queue.get(k);
                proof {
                    assert(self.queue_view()[k as int] == (self.queue.objs()[k as int])@);
                    assert(o@ == emitted[k as int]);
                }
                o.draw(stream)
            };
            match outcome {
                Ok(()) => {
                    proof {
                        assert(calls_seq.take(k + 1) =~= calls_seq.take(k as int).push(
                            calls_seq[k as int],
                        ));
                        assert(old(stream).calls() + calls_seq.take(k + 1) =~= (old(
                            stream,
                        ).calls() + calls_seq.take(k as int)).push(calls_seq[k as int]));
                    }
                    k = k + 1;
                },
                Err(e) => {
                    failure = Some(e);
                },
            }
        }
        self.queue.clear_objects();
        proof {
            assert(self.queue_view() =~= Seq::<ObjectView<T::Kernel, T::Params>>::empty());
            if failure is None {
                assert(calls_seq.take(n as int) =~= calls_seq);
            }
        }
        match failure {
            None => Ok(()),
            Some(e) => Err(e),
        }
    }
}

impl<M: Material, V: ToDepth, T: Technique<M, V>> Phase<M, V, T, ()> {
    /// Create a new phase from a given technique, without caching and
    /// without sorting.
    pub fn new(name: &str, tech: T) -> (r: Phase<M, V, T, ()>)
        ensures
            r.wf(),
            r.tech() == tech,
            r.name_view() == name@,
            r.sort_view() == Seq::<Sort>::empty(),
            r.queue_view() == Seq::<ObjectView<T::Kernel, T::Params>>::empty(),
            r.mem_view() == Map::<
                (T::Kernel, u64),
                Result<ObjectView<T::Kernel, T::Params>, BatchError>,
            >::empty(),
            !r.caching(),
    {
        let r = Phase {
            name: name.to_owned(),
            technique: tech,
            sort: Vec::new(),
            memory: (),
            queue: Queue::new(),
            marker: core::marker::PhantomData,
        };
        proof {
            assert(r.queue_view() =~= Seq::<ObjectView<T::Kernel, T::Params>>::empty());
            assert(r.mem_view() =~= Map::<
                (T::Kernel, u64),
                Result<ObjectView<T::Kernel, T::Params>, BatchError>,
            >::empty());
        }
        r
    }

    /// Enable sorting of rendered objects by the given criterion.
    pub fn with_sort(self, criterion: Sort) -> (r: Phase<M, V, T, ()>)
        ensures
            r.tech() == self.tech(),
            r.name_view() == self.name_view(),
            r.sort_view() == seq![criterion],
            r.queue_view() == self.queue_view(),
            r.queue_ids() == self.queue_ids(),
            r.mem_view() == self.mem_view(),
            !r.caching(),
            self.wf() ==> r.wf(),
    {
        Phase { sort: vec![criterion], ..self }
    }

    /// Enable caching of created render objects.
    pub fn with_cache(self) -> (r: CachedPhase<M, V, T>)
        ensures
            r.tech() == self.tech(),
            r.name_view() == self.name_view(),
            r.sort_view() == self.sort_view(),
            r.queue_view() == self.queue_view(),
            r.queue_ids() == self.queue_ids(),
            r.mem_view() == Map::<
                (T::Kernel, u64),
                Result<ObjectView<T::Kernel, T::Params>, BatchError>,
            >::empty(),
            r.caching(),
            self.wf() ==> r.wf(),
    {
        let r = Phase {
            name: self.name,
            technique: self.technique,
            sort: self.sort,
            memory: CacheMap::new(),
            queue: self.queue,
            marker: core::marker::PhantomData,
        };
        proof {
            assert(r.mem_view() =~= Map::<
                (T::Kernel, u64),
                Result<ObjectView<T::Kernel, T::Params>, BatchError>,
            >::empty());
        }
        r
    }
}

/// An abstract rendering phase: the object-safe face of a [`Phase`], for
/// storing differently-configured phases together and driving them
/// uniformly through `does_apply` / `enqueue` / `flush`.
pub trait AbstractPhase<M: Material, V: ToDepth, P, S: Stream<P>> {
    /// The phase's internal consistency, preserved by every operation.
    spec fn inv(&self) -> bool;

    /// Whether the phase's technique applies to a mesh/material pair; a
    /// pure routing decision, unaffected by enqueue or flush.
    spec fn spec_applies(&self, mesh: MeshView, material: M) -> bool;

    /// The draw calls the accumulated queue stands for, in insertion order.
    spec fn pending(&self) -> Seq<DrawCall<P>>;

    /// Check if it makes sense to enqueue an entity's fragment.
    fn does_apply(&self, mesh: &Mesh, material: &M) -> (r: bool)
        ensures
            r == self.spec_applies(mesh@, *material),
    ;

    /// Add an entity's fragment to the queue. `Ok(false)` reports exactly
    /// that the technique does not apply; `Ok(true)` queues one more call;
    /// an error queues nothing.
    fn enqueue(&mut self, mesh: &Mesh, slice: &Slice, material: &M, view_info: &V) -> (r: Result<
        bool,
        BatchError,
    >)
        requires
            old(self).inv(),
        ensures
            final(self).inv(),
            forall|m2: MeshView, mat2: M| final(self).spec_applies(m2, mat2) == old(
                self,
            ).spec_applies(m2, mat2),
            (r == Ok::<bool, BatchError>(false)) <==> !old(self).spec_applies(mesh@, *material),
            match r {
                Ok(true) => exists|c: DrawCall<P>|
                    final(self).pending() == #[trigger] old(self).pending().push(c),
                _ => final(self).pending() == old(self).pending(),
            },
    ;

    /// Flush the queue into a given stream: issue the pending calls in the
    /// phase's order, stopping at the first rejected call; the queue is
    /// emptied either way.
    fn flush(&mut self, stream: &mut S) -> (r: Result<(), FlushError>)
        requires
            old(self).inv(),
            old(self).pending().len() <= u32::MAX,
        ensures
            final(self).inv(),
            forall|m2: MeshView, mat2: M| final(self).spec_applies(m2, mat2) == old(
                self,
            ).spec_applies(m2, mat2),
            final(self).pending() == Seq::<DrawCall<P>>::empty(),
            exists|emitted: Seq<DrawCall<P>>|
                {
                    &&& #[trigger] reordering_of(emitted, old(self).pending())
                    &&& match r {
                        Ok(()) => final(stream).calls() == old(stream).calls() + emitted,
                        Err(_) => exists|n: int|
                            0 <= n < emitted.len() && final(stream).calls() == old(stream).calls()
                                + (#[trigger] emitted.take(n)),
                    }
                },
    ;
}

impl<
    M: Material,
    V: ToDepth,
    T: Technique<M, V>,
    Y: Memory<(T::Kernel, u64), Object<T::Kernel, T::Params>>,
    S: Stream<T::Params>,
> AbstractPhase<M, V, T::Params, S> for Phase<M, V, T, Y> {
    open spec fn inv(&self) -> bool {
        self.wf()
    }

    open spec fn spec_applies(&self, mesh: MeshView, material: M) -> bool {
        self.tech().spec_test(mesh, material) is Some
    }

    open spec fn pending(&self) -> Seq<DrawCall<T::Params>> {
        calls_of(self.queue_view())
    }

    fn does_apply(&self, mesh: &Mesh, material: &M) -> (r: bool) {
        Phase::does_apply(self, mesh, material)
    }

    fn enqueue(&mut self, mesh: &Mesh, slice: &Slice, material: &M, view_info: &V) -> (r: Result<
        bool,
        BatchError,
    >) {
        let r = Phase::enqueue(self, mesh, slice, material, view_info);
        proof {
            let step = spec_enqueue(
                old(self).tech(),
                old(self).caching(),
                old(self).mem_view(),
                mesh@,
                *slice,
                *material,
                *view_info,
            );
            if step.appended.len() == 0 {
                assert(calls_of(self.queue_view()) =~= calls_of(old(self).queue_view()));
            } else {
                let c = call_of(step.appended[0]);
                assert(calls_of(self.queue_view()) =~= calls_of(old(self).queue_view()).push(c));
                assert(<Phase<M, V, T, Y> as AbstractPhase<M, V, T::Params, S>>::pending(self)
                    == <Phase<M, V, T, Y> as AbstractPhase<M, V, T::Params, S>>::pending(
                    old(self),
                ).push(c));
            }
        }
        r
    }

    fn flush(&mut self, stream: &mut S) -> (r: Result<(), FlushError>) {
        let r = Phase::flush(self, stream);
        proof {
            let emitted_objects = choose|emitted: Seq<ObjectView<T::Kernel, T::Params>>|
                {
                    &&& #[trigger] reordering_of(emitted, old(self).queue_view())
                    &&& (old(self).sort_view().len() == 0 ==> emitted == old(self).queue_view())
                    &&& (old(self).sort_view().len() > 0 ==> forall|p: int, q: int|
                        0 <= p < q < emitted.len() ==> sort_le(
                            old(self).sort_view()[0],
                            #[trigger] emitted[p],
                            #[trigger] emitted[q],
                        ))
                    &&& match r {
                        Ok(()) => final(stream).calls() == old(stream).calls() + calls_of(emitted),
                        Err(_) => exists|n: int|
                            0 <= n < emitted.len() && final(stream).calls() == old(stream).calls()
                                + (#[trigger] calls_of(emitted).take(n)),
                    }
                };
            let emitted_calls = calls_of(emitted_objects);
            assert(reordering_of(emitted_calls, calls_of(old(self).queue_view()))) by {
                let ids = choose|ids: Seq<u32>|
                    {
                        &&& perm_of(ids, old(self).queue_view().len() as int)
                        &&& emitted_objects.len() == old(self).queue_view().len()
                        &&& forall|j: int|
                            0 <= j < emitted_objects.len() ==> emitted_objects[j] == old(
                                self,
                            ).queue_view()[#[trigger] ids[j] as int]
                    };
                assert(perm_of(ids, calls_of(old(self).queue_view()).len() as int));
                assert(forall|j: int|
                    0 <= j < emitted_calls.len() ==> emitted_calls[j] == calls_of(
                        old(self).queue_view(),
                    )[#[trigger] ids[j] as int]);
            }
            assert(calls_of(self.queue_view()) =~= Seq::<DrawCall<T::Params>>::empty());
        }
        r
    }
}

/// Cache correctness: with caching on, once an enqueue for a mesh/material
/// pair has compiled and queued an object, a second enqueue for the same
/// pair (under any slice and view data) recalls that object: it succeeds,
/// and the object it queues carries the very same batch, draw state, kernel
/// and instancing — only the slice, the depth and the re-patched parameters
/// are taken from the second call.
pub proof fn lemma_cache_correctness<M: Material, V: ToDepth, T: Technique<M, V>>(
    tech: T,
    mem: Map<(T::Kernel, u64), Result<ObjectView<T::Kernel, T::Params>, BatchError>>,
    mesh: MeshView,
    material: M,
    s1: Slice,
    v1: V,
    s2: Slice,
    v2: V,
)
    requires
        tech.spec_test(mesh, material) is Some,
        !mem.contains_key((tech.spec_test(mesh, material)->Some_0, mesh.id)),
        spec_enqueue(tech, true, mem, mesh, s1, material, v1).result == Ok::<bool, BatchError>(
            true,
        ),
    ensures
        ({
            let step1 = spec_enqueue(tech, true, mem, mesh, s1, material, v1);
            let step2 = spec_enqueue(tech, true, step1.mem_after, mesh, s2, material, v2);
            &&& step2.result == Ok::<bool, BatchError>(true)
            &&& step1.appended.len() == 1
            &&& step2.appended.len() == 1
            &&& step2.appended[0].batch == step1.appended[0].batch
            &&& step2.appended[0].state == step1.appended[0].state
            &&& step2.appended[0].kernel == step1.appended[0].kernel
            &&& step2.appended[0].instances == step1.appended[0].instances
            &&& step2.appended[0].slice == s2
            &&& step2.appended[0].depth == v2.spec_depth()
        }),
{
}

/// Poison persistence: with caching on, once an enqueue for a mesh/material
/// pair has failed, a later enqueue for the same pair returns that same
/// failure, queues nothing and changes nothing — the failing construction
/// is never retried.
pub proof fn lemma_poison_persistence<M: Material, V: ToDepth, T: Technique<M, V>>(
    tech: T,
    mem: Map<(T::Kernel, u64), Result<ObjectView<T::Kernel, T::Params>, BatchError>>,
    mesh: MeshView,
    material: M,
    s1: Slice,
    v1: V,
    s2: Slice,
    v2: V,
)
    requires
        spec_enqueue(tech, true, mem, mesh, s1, material, v1).result is Err,
    ensures
        ({
            let step1 = spec_enqueue(tech, true, mem, mesh, s1, material, v1);
            let step2 = spec_enqueue(tech, true, step1.mem_after, mesh, s2, material, v2);
            &&& step2.result == step1.result
            &&& step2.appended == Seq::<ObjectView<T::Kernel, T::Params>>::empty()
            &&& step2.mem_after == step1.mem_after
        }),
{
}

/// No-op cache equivalence: an enqueue against the no-op memory and an
/// enqueue against a real cache that is cold for the key return the same
/// result and queue the same objects — caching is a pure optimization, not
/// a behavior change.
pub proof fn lemma_noop_cache_equivalence<M: Material, V: ToDepth, T: Technique<M, V>>(
    tech: T,
    mem: Map<(T::Kernel, u64), Result<ObjectView<T::Kernel, T::Params>, BatchError>>,
    mesh: MeshView,
    material: M,
    slice: Slice,
    view: V,
)
    requires
        match tech.spec_test(mesh, material) {
            Some(kernel) => !mem.contains_key((kernel, mesh.id)),
            None => true,
        },
    ensures
        ({
            let plain = spec_enqueue(
                tech,
                false,
                Map::<
                    (T::Kernel, u64),
                    Result<ObjectView<T::Kernel, T::Params>, BatchError>,
                >::empty(),
                mesh,
                slice,
                material,
                view,
            );
            let cached = spec_enqueue(tech, true, mem, mesh, slice, material, view);
            &&& plain.result == cached.result
            &&& plain.appended == cached.appended
        }),
{
}

/// An uncached phase remembers nothing, whatever was enqueued or flushed.
pub proof fn lemma_uncached_phase_remembers_nothing<M: Material, V: ToDepth, T: Technique<M, V>>(
    p: Phase<M, V, T, ()>,
)
    ensures
        p.mem_view() == Map::<
            (T::Kernel, u64),
            Result<ObjectView<T::Kernel, T::Params>, BatchError>,
        >::empty(),
{
    assert(p.mem_view() =~= Map::<
        (T::Kernel, u64),
        Result<ObjectView<T::Kernel, T::Params>, BatchError>,
    >::empty());
}

/// Flush clears: that the queue is empty after any flush, success or
/// failure, stands in the `ensures` of `flush` itself. This lemma carries
/// the second half of the law: an uncached phase that has been flushed
/// behaves on the next enqueue exactly like a freshly constructed phase
/// with the same technique — the transition reads nothing but the
/// technique, the caching mode and the (empty) memory.
pub proof fn lemma_flush_fresh_cycle<M: Material, V: ToDepth, T: Technique<M, V>>(
    flushed: Phase<M, V, T, ()>,
    fresh: Phase<M, V, T, ()>,
    mesh: MeshView,
    material: M,
    slice: Slice,
    view: V,
)
    requires
        flushed.queue_view() == Seq::<ObjectView<T::Kernel, T::Params>>::empty(),
        fresh.queue_view() == Seq::<ObjectView<T::Kernel, T::Params>>::empty(),
        flushed.tech() == fresh.tech(),
    ensures
        ({
            let after = spec_enqueue(
                flushed.tech(),
                flushed.caching(),
                flushed.mem_view(),
                mesh,
                slice,
                material,
                view,
            );
            let on_fresh = spec_enqueue(
                fresh.tech(),
                fresh.caching(),
                fresh.mem_view(),
                mesh,
                slice,
                material,
                view,
            );
            &&& after == on_fresh
            &&& flushed.queue_view() + after.appended == fresh.queue_view() + on_fresh.appended
        }),
{
    lemma_uncached_phase_remembers_nothing(flushed);
    lemma_uncached_phase_remembers_nothing(fresh);
}

/// Objects listed through `ids1` are ascending by depth.
pub open spec fn depth_ascending_via<K, P>(base: Seq<ObjectView<K, P>>, ids: Seq<u32>) -> bool {
    forall|p: int, q: int| 0 <= p < q < ids.len() ==> base[#[trigger] ids[p] as int].depth <= base[
        #[trigger] ids[q] as int
    ].depth
}

/// Two depth-ascending arrangements of the same objects agree position by
/// position, provided no two objects share a depth.
proof fn lemma_ascending_arrangement_unique<K, P>(
    base: Seq<ObjectView<K, P>>,
    ids1: Seq<u32>,
    ids2: Seq<u32>,
    j: int,
)
    requires
        perm_of(ids1, base.len() as int),
        perm_of(ids2, base.len() as int),
        depth_ascending_via(base, ids1),
        depth_ascending_via(base, ids2),
        forall|i1: int, i2: int| 0 <= i1 < i2 < base.len() ==> base[i1].depth != base[i2].depth,
        0 <= j <= base.len(),
    ensures
        forall|k: int| 0 <= k < j ==> ids1[k] == ids2[k],
    decreases j,
{
    if j > 0 {
        lemma_ascending_arrangement_unique(base, ids1, ids2, j - 1);
        let n = base.len() as int;
        let a = ids1[j - 1];
        let b = ids2[j - 1];
        if a != b {
            // distinct positions hold distinct depths, whichever is first
            assert(forall|i1: int, i2: int|
                0 <= i1 < n && 0 <= i2 < n && i1 != i2 ==> base[i1].depth != base[i2].depth);
            crate::queue::lemma_perm_surjective(ids2, n);
            assert(crate::queue::has_value(ids2, a as int));
            let ja = choose|ja: int| 0 <= ja < ids2.len() && ids2[ja] == a as int;
            assert(ids2[ja] == a);
            // `a` cannot stand before position j - 1 in ids2: those entries
            // equal the entries of ids1, which never repeats `a`
            assert(forall|k: int| 0 <= k < j - 1 ==> ids2[k] == ids1[k] && ids1[k] != a);
            assert(ja > j - 1);
            assert(base[b as int].depth <= base[a as int].depth);
            assert(base[b as int].depth != base[a as int].depth);
            crate::queue::lemma_perm_surjective(ids1, n);
            assert(crate::queue::has_value(ids1, b as int));
            let jb = choose|jb: int| 0 <= jb < ids1.len() && ids1[jb] == b as int;
            assert(ids1[jb] == b);
            assert(forall|k: int| 0 <= k < j - 1 ==> ids1[k] != b);
            assert(jb > j - 1);
            assert(base[a as int].depth <= base[b as int].depth);
            assert(false);
        }
    }
}

/// Sort determinism: on objects with pairwise distinct depths, the
/// front-to-back order and the back-to-front order of the same object set
/// are exact reverses of each other.
pub proof fn lemma_depth_sort_reversal<K, P>(
    base: Seq<ObjectView<K, P>>,
    fwd: Seq<ObjectView<K, P>>,
    bwd: Seq<ObjectView<K, P>>,
)
    requires
        reordering_of(fwd, base),
        reordering_of(bwd, base),
        forall|p: int, q: int| 0 <= p < q < fwd.len() ==> sort_le(
            Sort::FrontToBack,
            #[trigger] fwd[p],
            #[trigger] fwd[q],
        ),
        forall|p: int, q: int| 0 <= p < q < bwd.len() ==> sort_le(
            Sort::BackToFront,
            #[trigger] bwd[p],
            #[trigger] bwd[q],
        ),
        forall|i1: int, i2: int| 0 <= i1 < i2 < base.len() ==> base[i1].depth != base[i2].depth,
    ensures
        fwd == bwd.reverse(),
{
    let n = base.len() as int;
    let ids1 = choose|ids: Seq<u32>|
        {
            &&& perm_of(ids, base.len() as int)
            &&& fwd.len() == base.len()
            &&& forall|j: int| 0 <= j < fwd.len() ==> fwd[j] == base[#[trigger] ids[j] as int]
        };
    let ids_b = choose|ids: Seq<u32>|
        {
            &&& perm_of(ids, base.len() as int)
            &&& bwd.len() == base.len()
            &&& forall|j: int| 0 <= j < bwd.len() ==> bwd[j] == base[#[trigger] ids[j] as int]
        };
    let rev = bwd.reverse();
    let ids2 = Seq::new(ids_b.len(), |j: int| ids_b[n - 1 - j]);
    assert(perm_of(ids2, n)) by {
        assert(forall|j: int| 0 <= j < ids2.len() ==> (#[trigger] ids2[j]) == ids_b[n - 1 - j]);
        assert forall|p: int, q: int| 0 <= p < q < ids2.len() implies ids2[p] != ids2[q] by {
            assert(ids2[p] == ids_b[n - 1 - p] && ids2[q] == ids_b[n - 1 - q]);
        }
    }
    assert(forall|j: int| 0 <= j < rev.len() ==> rev[j] == bwd[n - 1 - j]);
    assert(forall|j: int| 0 <= j < rev.len() ==> #[trigger] rev[j] == base[ids2[j] as int]);
    // front-to-back comparisons are plain depth comparisons
    assert(depth_ascending_via(base, ids1)) by {
        assert forall|p: int, q: int| 0 <= p < q < ids1.len() implies base[
            #[trigger] ids1[p] as int
        ].depth <= base[#[trigger] ids1[q] as int].depth by {
            assert(sort_le(Sort::FrontToBack, fwd[p], fwd[q]));
            lemma_lex_single(fwd[p].depth as int, fwd[q].depth as int);
        }
    }
    // ... and the reverse of a back-to-front order is depth-ascending
    assert(depth_ascending_via(base, ids2)) by {
        assert forall|p: int, q: int| 0 <= p < q < ids2.len() implies base[
            #[trigger] ids2[p] as int
        ].depth <= base[#[trigger] ids2[q] as int].depth by {
            assert(sort_le(Sort::BackToFront, bwd[n - 1 - q], bwd[n - 1 - p]));
            lemma_lex_single(-(bwd[n - 1 - q].depth as int), -(bwd[n - 1 - p].depth as int));
            assert(rev[p] == bwd[n - 1 - p] && rev[q] == bwd[n - 1 - q]);
        }
    }
    lemma_ascending_arrangement_unique(base, ids1, ids2, n);
    assert forall|j: int| 0 <= j < fwd.len() implies fwd[j] == rev[j] by {
        assert(ids1[j] == ids2[j]);
    }
    assert(fwd =~= rev);
}

/// One enqueue request, at the specification level.
pub struct EnqueueRequest<M, V> {
    /// The mesh enqueued against.
    pub mesh: MeshView,
    /// The geometry slice.
    pub slice: Slice,
    /// The material handed to the technique.
    pub material: M,
    /// The per-draw view information.
    pub view: V,
}

/// What a run of enqueues does: everything appended to the queue, the
/// result of each call in order, and the memory afterwards.
#[verifier::reject_recursive_types(K)]
pub struct RunOutcome<K, P> {
    /// The object views appended to the queue, in order.
    pub appended: Seq<ObjectView<K, P>>,
    /// The per-call results, in order.
    pub results: Seq<Result<bool, BatchError>>,
    /// The memory contents after the run.
    pub mem_after: Map<(K, u64), Result<ObjectView<K, P>, BatchError>>,
}

/// A run of enqueue transitions, first request first.
pub open spec fn run_enqueues<M: Material, V: ToDepth, T: Technique<M, V>>(
    tech: T,
    caching: bool,
    mem: Map<(T::Kernel, u64), Result<ObjectView<T::Kernel, T::Params>, BatchError>>,
    reqs: Seq<EnqueueRequest<M, V>>,
) -> RunOutcome<T::Kernel, T::Params>
    decreases reqs.len(),
{
    if reqs.len() == 0 {
        RunOutcome { appended: Seq::empty(), results: Seq::empty(), mem_after: mem }
    } else {
        let first = spec_enqueue(
            tech,
            caching,
            mem,
            reqs[0].mesh,
            reqs[0].slice,
            reqs[0].material,
            reqs[0].view,
        );
        let rest = run_enqueues(tech, caching, first.mem_after, reqs.drop_first());
        RunOutcome {
            appended: first.appended + rest.appended,
            results: seq![first.result] + rest.results,
            mem_after: rest.mem_after,
        }
    }
}

/// The cache key a request will be filed under, if its technique applies.
pub open spec fn request_key<M: Material, V: ToDepth, T: Technique<M, V>>(
    tech: T,
    r: EnqueueRequest<M, V>,
) -> Option<(T::Kernel, u64)> {
    match tech.spec_test(r.mesh, r.material) {
        Some(kernel) => Some((kernel, r.mesh.id)),
        None => None,
    }
}

/// No-op cache equivalence over whole runs: as long as every request's key
/// is cold — absent from the starting memory and not repeated within the
/// run — a phase backed by a real cache appends exactly the objects, and
/// returns exactly the results, that the uncached phase does.
pub proof fn lemma_noop_cache_run_equivalence<M: Material, V: ToDepth, T: Technique<M, V>>(
    tech: T,
    mem: Map<(T::Kernel, u64), Result<ObjectView<T::Kernel, T::Params>, BatchError>>,
    reqs: Seq<EnqueueRequest<M, V>>,
)
    requires
        forall|i: int| 0 <= i < reqs.len() ==> match request_key(tech, #[trigger] reqs[i]) {
            Some(key) => !mem.contains_key(key),
            None => true,
        },
        forall|i: int, j: int|
            0 <= i < j < reqs.len() ==> (request_key(tech, #[trigger] reqs[i]) is Some ==> request_key(
                tech,
                reqs[i],
            ) != request_key(tech, #[trigger] reqs[j])),
    ensures
        ({
            let plain = run_enqueues(
                tech,
                false,
                Map::<
                    (T::Kernel, u64),
                    Result<ObjectView<T::Kernel, T::Params>, BatchError>,
                >::empty(),
                reqs,
            );
            let cached = run_enqueues(tech, true, mem, reqs);
            &&& plain.appended == cached.appended
            &&& plain.results == cached.results
        }),
    decreases reqs.len(),
{
    if reqs.len() > 0 {
        let empty_mem = Map::<
            (T::Kernel, u64),
            Result<ObjectView<T::Kernel, T::Params>, BatchError>,
        >::empty();
        let r0 = reqs[0];
        lemma_noop_cache_equivalence(tech, mem, r0.mesh, r0.material, r0.slice, r0.view);
        let plain_first = spec_enqueue(tech, false, empty_mem, r0.mesh, r0.slice, r0.material, r0.view);
        let cached_first = spec_enqueue(tech, true, mem, r0.mesh, r0.slice, r0.material, r0.view);
        // the uncached run never grows its memory
        assert(plain_first.mem_after == empty_mem);
        // the cached run grows its memory by at most the first request's key
        let mem1 = cached_first.mem_after;
        assert(forall|key: (T::Kernel, u64)| #[trigger] mem1.contains_key(key) ==> mem.contains_key(
            key,
        ) || request_key(tech, r0) == Some(key));
        let rest = reqs.drop_first();
        assert(forall|i: int| 0 <= i < rest.len() ==> #[trigger] rest[i] == reqs[i + 1]);
        assert forall|i: int| 0 <= i < rest.len() implies match request_key(
            tech,
            #[trigger] rest[i],
        ) {
            Some(key) => !mem1.contains_key(key),
            None => true,
        } by {
            match request_key(tech, rest[i]) {
                Some(key) => {
                    assert(request_key(tech, reqs[i + 1]) == Some(key));
                    assert(!mem.contains_key(key));
                    if request_key(tech, r0) is Some {
                        assert(request_key(tech, reqs[0]) != request_key(tech, reqs[i + 1]));
                    }
                },
                None => {},
            }
        }
        lemma_noop_cache_run_equivalence(tech, mem1, rest);
        // the uncached tail starts from the empty memory either way
        assert(run_enqueues(tech, false, empty_mem, rest) == run_enqueues(
            tech,
            false,
            plain_first.mem_after,
            rest,
        ));
    }
}

} // verus!
