//! Plain data model of the GPU-facing values that the phase engine handles:
//! meshes, geometry slices, shader programs, draw state, and the compiled
//! batch that links a program against a mesh.
//!
//! The device layer itself is out of scope; these types carry exactly what
//! the queue engine reads: a stable mesh identity for cache keying, named
//! attribute buffers for program linking, and opaque handles for everything
//! the GPU owns.

use vstd::prelude::*;

verus! {

/// A single vertex attribute of a mesh: a shader-visible name bound to a
/// buffer handle.
#[derive(Clone, Copy, PartialEq, Eq, Structural, Debug)]
pub struct Attribute {
    /// Shader-visible attribute name (interned).
    pub name: u64,
    /// Handle of the buffer that backs the attribute.
    pub buffer: u64,
}

/// A geometry sub-range: the primitives `[start, end)` of a mesh.
#[derive(Clone, Copy, PartialEq, Eq, Structural, Debug)]
pub struct Slice {
    /// First primitive index.
    pub start: u32,
    /// One past the last primitive index.
    pub end: u32,
}

impl Slice {
    /// A slice is well-formed when it describes a forward range.
    pub open spec fn wf(self) -> bool {
        self.start <= self.end
    }

    /// Number of primitives addressed by the slice.
    pub fn get_prim_count(&self) -> (n: u32)
        requires
            self.wf(),
        ensures
            n == self.end - self.start,
    {
        self.end - self.start
    }
}

/// Rasterizer / blend / depth-stencil state, carried as an opaque handle.
#[derive(Clone, Copy, PartialEq, Eq, Structural, Debug)]
pub struct DrawState {
    /// Handle of the state block.
    pub id: u64,
}

/// Vertex data source: a stable identity (the cache key side), a vertex
/// count, and the attribute buffers the mesh provides.
#[derive(Debug)]
pub struct Mesh {
    /// Stable identity of the mesh, used for cache keying.
    pub id: u64,
    /// Number of vertices.
    pub num_vertices: u32,
    /// Attribute buffers the mesh provides.
    pub attributes: Vec<Attribute>,
}

/// Mathematical image of a [`Mesh`].
pub struct MeshView {
    /// Stable identity of the mesh.
    pub id: u64,
    /// Number of vertices.
    pub num_vertices: u32,
    /// Attribute buffers, as a sequence.
    pub attributes: Seq<Attribute>,
}

impl View for Mesh {
    type V = MeshView;

    open spec fn view(&self) -> MeshView {
        MeshView { id: self.id, num_vertices: self.num_vertices, attributes: self.attributes@ }
    }
}

impl Clone for Mesh {
    /// Cloning a mesh preserves its whole image.
    fn clone(&self) -> (r: Self)
        ensures
            r@ == self@,
    {
        let r = Mesh {
            id: self.id,
            num_vertices: self.num_vertices,
            attributes: self.attributes.clone(),
        };
        proof {
            assert(r@.attributes =~= self@.attributes);
        }
        r
    }
}

impl Mesh {
    /// Create a mesh with no attributes yet, carrying a given identity and
    /// vertex count.
    pub fn new(id: u64, num_vertices: u32) -> (r: Mesh)
        ensures
            r@ == (MeshView { id, num_vertices, attributes: Seq::<Attribute>::empty() }),
    {
        let r = Mesh { id, num_vertices, attributes: Vec::new() };
        proof {
            assert(r@.attributes =~= Seq::<Attribute>::empty());
        }
        r
    }
}

/// A linked shader program: a handle plus the attribute names the program
/// requires from any mesh it is drawn with.
#[derive(Debug)]
pub struct Program {
    /// Program handle.
    pub id: u64,
    /// Attribute names the program's vertex stage consumes.
    pub inputs: Vec<u64>,
}

/// Mathematical image of a [`Program`].
pub struct ProgramView {
    /// Program handle.
    pub id: u64,
    /// Required attribute names, as a sequence.
    pub inputs: Seq<u64>,
}

impl View for Program {
    type V = ProgramView;

    open spec fn view(&self) -> ProgramView {
        ProgramView { id: self.id, inputs: self.inputs@ }
    }
}

impl Clone for Program {
    /// Cloning a program preserves its whole image.
    fn clone(&self) -> (r: Self)
        ensures
            r@ == self@,
    {
        let r = Program { id: self.id, inputs: self.inputs.clone() };
        proof {
            assert(r@.inputs =~= self@.inputs);
        }
        r
    }
}

/// Failure to construct a batch.
#[derive(Clone, Copy, PartialEq, Eq, Structural, Debug)]
pub enum BatchError {
    /// The mesh does not provide an attribute the program requires;
    /// carries the missing attribute name.
    AttributeMissing(u64),
}

/// Failure while issuing a queued draw to the output target.
#[derive(Clone, Copy, PartialEq, Eq, Structural, Debug)]
pub enum DrawError {
    /// The target rejected the batch itself.
    InvalidBatch(BatchError),
    /// The slice addressed primitives outside the bound geometry.
    OutOfBounds,
}

/// Potential error occurring while flushing a phase.
pub type FlushError = DrawError;

/// True when `mesh` provides an attribute named `name`.
pub open spec fn mesh_has_input(mesh: MeshView, name: u64) -> bool {
    exists|j: int| 0 <= j < mesh.attributes.len() && mesh.attributes[j].name == name
}

/// True when every attribute the program requires is provided by the mesh.
pub open spec fn link_ok(program: ProgramView, mesh: MeshView) -> bool {
    forall|i: int| 0 <= i < program.inputs.len() ==> mesh_has_input(mesh, #[trigger] program.inputs[i])
}

/// The first required attribute name, scanning from position `i`, that the
/// mesh does not provide; meaningful only when the link fails.
pub open spec fn first_missing_from(inputs: Seq<u64>, mesh: MeshView, i: int) -> u64
    decreases inputs.len() - i,
{
    if i < 0 || i >= inputs.len() {
        0
    } else if !mesh_has_input(mesh, inputs[i]) {
        inputs[i]
    } else {
        first_missing_from(inputs, mesh, i + 1)
    }
}

/// The mesh that instanced drawing links against: the original attributes
/// followed by the technique's extra per-instance attributes, under the
/// original identity.
pub open spec fn merged_mesh(orig: MeshView, extra: Seq<Attribute>) -> MeshView {
    MeshView { id: orig.id, num_vertices: orig.num_vertices, attributes: orig.attributes + extra }
}

/// Mathematical image of a [`Batch`].
pub struct BatchView {
    /// Program half of the link.
    pub program: ProgramView,
    /// Mesh half of the link.
    pub mesh: MeshView,
}

/// What constructing a batch from a program and a mesh yields: the linked
/// pair when every program input is matched, otherwise the first missing
/// attribute name.
pub open spec fn spec_link(program: ProgramView, mesh: MeshView) -> Result<BatchView, BatchError> {
    if link_ok(program, mesh) {
        Ok(BatchView { program, mesh })
    } else {
        Err(BatchError::AttributeMissing(first_missing_from(program.inputs, mesh, 0)))
    }
}

/// The compiled, GPU-ready pairing of a program with a mesh whose
/// attributes satisfy the program's inputs.
#[derive(Debug)]
pub struct Batch {
    program: Program,
    mesh: Mesh,
}

impl View for Batch {
    type V = BatchView;

    closed spec fn view(&self) -> BatchView {
        BatchView { program: self.program@, mesh: self.mesh@ }
    }
}

impl Clone for Batch {
    /// Cloning a batch preserves its whole image.
    fn clone(&self) -> (r: Self)
        ensures
            r@ == self@,
    {
        Batch { program: self.program.clone(), mesh: self.mesh.clone() }
    }
}

impl Batch {
    /// Link a program against a mesh, checking that the mesh provides every
    /// attribute the program requires. Fails with the first missing
    /// attribute name.
    pub fn new(mesh: Mesh, program: Program) -> (r: Result<Batch, BatchError>)
        ensures
            match r {
                Ok(b) => link_ok(program@, mesh@) && b@ == (BatchView {
                    program: program@,
                    mesh: mesh@,
                }),
                Err(e) => !link_ok(program@, mesh@) && e == BatchError::AttributeMissing(
                    first_missing_from(program@.inputs, mesh@, 0),
                ),
            },
    {
        let n = program.inputs.len();
        for i in 0..n
            invariant
                n == program.inputs.len(),
                forall|k: int| 0 <= k < i ==> mesh_has_input(mesh@, #[trigger] program.inputs@[k]),
                first_missing_from(program.inputs@, mesh@, 0) == first_missing_from(
                    program.inputs@,
                    mesh@,
                    i as int,
                ),
        {
            let name = program.inputs[i];
            if !Self::mesh_provides(&mesh, name) {
                proof {
                    assert(first_missing_from(program.inputs@, mesh@, i as int) == name);
                    assert(!mesh_has_input(mesh@, program@.inputs[i as int]));
                    assert(!link_ok(program@, mesh@));
                }
                return Err(BatchError::AttributeMissing(name));
            }
            proof {
                assert(first_missing_from(program.inputs@, mesh@, i as int)
                    == first_missing_from(program.inputs@, mesh@, i + 1));
            }
        }
        Ok(Batch { program, mesh })
    }

    fn mesh_provides(mesh: &Mesh, name: u64) -> (r: bool)
        ensures
            r == mesh_has_input(mesh@, name),
    {
        let n = mesh.attributes.len();
        for j in 0..n
            invariant
                n == mesh.attributes.len(),
                forall|k: int| 0 <= k < j ==> mesh.attributes@[k].name != name,
        {
            if mesh.attributes[j].name == name {
                proof {
                    assert(mesh@.attributes[j as int].name == name);
                }
                return true;
            }
        }
        false
    }

    /// Handle of the linked program.
    pub fn program(&self) -> (r: u64)
        ensures
            r == self@.program.id,
    {
        self.program.id
    }

    /// The linked mesh.
    pub fn mesh(&self) -> (r: &Mesh)
        ensures
            r@ == self@.mesh,
    {
        &self.mesh
    }
}

} // verus!
