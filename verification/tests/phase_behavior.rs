//! Behavior of the phase engine: caching, poison entries, sorting orders,
//! flush semantics, and the no-op cache equivalence, exercised through a
//! small hand-written technique and a recording output stream.

use std::cell::Cell;

use gfx_phase::phase::{
    DrawCall, Material, Phase, Sort, Stream, TechResult, Technique, ToDepth,
};
use gfx_phase::types::{Attribute, BatchError, DrawError, DrawState, Mesh, Program, Slice};

/// A material: a shade that doubles as the kernel, and a usability switch.
struct Paint {
    shade: u64,
    usable: bool,
}

impl Material for Paint {}

/// View information carrying a plain depth.
#[derive(Clone, Copy)]
struct Dist {
    depth: i64,
}

impl ToDepth for Dist {
    // specification members are never called at run time
    fn spec_depth(&self) -> i64 {
        unreachable!()
    }

    fn to_depth(&self) -> i64 {
        self.depth
    }
}

/// A technique that accepts usable paints, keys them by shade, and counts
/// its compilations. Parameters are patched to the current depth so that
/// draw calls reveal their ordering.
struct Flat {
    program: u64,
    /// Attribute names the compiled program will require from the mesh.
    wanted_inputs: Vec<u64>,
    compiles: Cell<u32>,
}

impl Flat {
    fn new(program: u64) -> Flat {
        Flat { program, wanted_inputs: Vec::new(), compiles: Cell::new(0) }
    }

    fn demanding(program: u64, wanted_inputs: Vec<u64>) -> Flat {
        Flat { program, wanted_inputs, compiles: Cell::new(0) }
    }
}

impl Technique<Paint, Dist> for Flat {
    type Kernel = u64;
    type Params = u64;

    // specification members are never called at run time
    fn spec_test(&self, _mesh: gfx_phase::types::MeshView, _material: Paint) -> Option<u64> {
        unreachable!()
    }

    fn spec_compile(&self, _kernel: u64, _view: Dist) -> gfx_phase::phase::TechSpec<u64> {
        unreachable!()
    }

    fn spec_fix(&self, _material: Paint, _view: Dist, _params: u64) -> u64 {
        unreachable!()
    }

    fn test(&self, _mesh: &Mesh, material: &Paint) -> Option<u64> {
        if material.usable {
            Some(material.shade)
        } else {
            None
        }
    }

    fn compile(&self, kernel: u64, _view: &Dist) -> TechResult<u64> {
        self.compiles.set(self.compiles.get() + 1);
        TechResult {
            program: Program { id: self.program, inputs: self.wanted_inputs.clone() },
            params: 0,
            state: DrawState { id: kernel },
            instancing: None,
        }
    }

    fn fix_params(&self, _material: &Paint, view: &Dist, params: &mut u64) {
        *params = view.depth as u64;
    }
}

/// An output target that records accepted calls and can be told to reject
/// everything from a certain call count on.
struct Recorder {
    accepted: Vec<DrawCall<u64>>,
    reject_from: Option<usize>,
}

impl Recorder {
    fn new() -> Recorder {
        Recorder { accepted: Vec::new(), reject_from: None }
    }

    fn failing_after(n: usize) -> Recorder {
        Recorder { accepted: Vec::new(), reject_from: Some(n) }
    }
}

impl Stream<u64> for Recorder {
    // specification members are never called at run time
    fn calls(&self) -> vstd::seq::Seq<DrawCall<u64>> {
        unreachable!()
    }

    fn draw(&mut self, call: DrawCall<u64>) -> Result<(), DrawError> {
        if let Some(limit) = self.reject_from {
            if self.accepted.len() >= limit {
                return Err(DrawError::OutOfBounds);
            }
        }
        self.accepted.push(call);
        Ok(())
    }
}

fn plain_mesh(id: u64) -> Mesh {
    Mesh { id, num_vertices: 12, attributes: vec![Attribute { name: 1, buffer: id * 10 }] }
}

fn slice(start: u32, end: u32) -> Slice {
    Slice { start, end }
}

/// Depths written as fractional units, the way a camera would hand them out.
fn depth_units(d: f32) -> i64 {
    (d * 1000.0) as i64
}

fn enqueue_three<Y>(phase: &mut Phase<Paint, Dist, Flat, Y>) -> Vec<Result<bool, BatchError>>
where
    Y: gfx_phase::memory::Memory<(u64, u64), gfx_phase::phase::Object<u64, u64>>,
{
    let mesh = plain_mesh(7);
    let depths = [5.0f32, 1.0, 3.0];
    let shades = [100u64, 200, 100];
    let mut outcomes = Vec::new();
    for k in 0..3 {
        let paint = Paint { shade: shades[k], usable: true };
        let view = Dist { depth: depth_units(depths[k]) };
        outcomes.push(phase.enqueue(&mesh, &slice(k as u32, k as u32 + 1), &paint, &view));
    }
    outcomes
}

#[test]
fn insertion_order_without_sort() {
    let mut phase = Phase::new("flat", Flat::new(1));
    let outcomes = enqueue_three(&mut phase);
    assert!(outcomes.iter().all(|r| *r == Ok(true)));
    let mut stream = Recorder::new();
    assert_eq!(phase.flush(&mut stream), Ok(()));
    let depths: Vec<u64> = stream.accepted.iter().map(|c| c.params).collect();
    assert_eq!(depths, vec![5000, 1000, 3000]);
}

#[test]
fn front_to_back_sorts_ascending() {
    let mut phase = Phase::new("flat", Flat::new(1)).with_sort(Sort::FrontToBack);
    enqueue_three(&mut phase);
    let mut stream = Recorder::new();
    assert_eq!(phase.flush(&mut stream), Ok(()));
    let depths: Vec<u64> = stream.accepted.iter().map(|c| c.params).collect();
    assert_eq!(depths, vec![1000, 3000, 5000]);
}

#[test]
fn back_to_front_sorts_descending() {
    let mut phase = Phase::new("flat", Flat::new(1)).with_sort(Sort::BackToFront);
    enqueue_three(&mut phase);
    let mut stream = Recorder::new();
    assert_eq!(phase.flush(&mut stream), Ok(()));
    let depths: Vec<u64> = stream.accepted.iter().map(|c| c.params).collect();
    assert_eq!(depths, vec![5000, 3000, 1000]);
}

#[test]
fn opposite_depth_sorts_reverse_each_other() {
    let mut front = Phase::new("front", Flat::new(1)).with_sort(Sort::FrontToBack);
    let mut back = Phase::new("back", Flat::new(1)).with_sort(Sort::BackToFront);
    enqueue_three(&mut front);
    enqueue_three(&mut back);
    let mut fs = Recorder::new();
    let mut bs = Recorder::new();
    front.flush(&mut fs).unwrap();
    back.flush(&mut bs).unwrap();
    let forward: Vec<u64> = fs.accepted.iter().map(|c| c.params).collect();
    let mut backward: Vec<u64> = bs.accepted.iter().map(|c| c.params).collect();
    backward.reverse();
    assert_eq!(forward, backward);
}

#[test]
fn cache_compiles_once_and_recalls_the_batch() {
    let mut phase = Phase::new("cached", Flat::new(9)).with_cache();
    let mesh = plain_mesh(3);
    let paint = Paint { shade: 42, usable: true };
    let first = phase.enqueue(&mesh, &slice(0, 4), &paint, &Dist { depth: 10 });
    let second = phase.enqueue(&mesh, &slice(4, 8), &paint, &Dist { depth: 20 });
    assert_eq!(first, Ok(true));
    assert_eq!(second, Ok(true));
    assert_eq!(phase.technique.compiles.get(), 1);
    let mut stream = Recorder::new();
    phase.flush(&mut stream).unwrap();
    assert_eq!(stream.accepted.len(), 2);
    // identical program and state on both calls: the second was recalled
    assert_eq!(stream.accepted[0].program, stream.accepted[1].program);
    assert_eq!(stream.accepted[0].state, stream.accepted[1].state);
    // per-call values were still refreshed
    assert_eq!(stream.accepted[0].slice, slice(0, 4));
    assert_eq!(stream.accepted[1].slice, slice(4, 8));
    assert_eq!(stream.accepted[1].params, 20);
}

#[test]
fn uncached_phase_compiles_every_time() {
    let mut phase = Phase::new("plain", Flat::new(9));
    let mesh = plain_mesh(3);
    let paint = Paint { shade: 42, usable: true };
    phase.enqueue(&mesh, &slice(0, 4), &paint, &Dist { depth: 10 }).unwrap();
    phase.enqueue(&mesh, &slice(4, 8), &paint, &Dist { depth: 20 }).unwrap();
    assert_eq!(phase.technique.compiles.get(), 2);
}

#[test]
fn poison_failure_is_returned_without_recompiling() {
    // the program demands an attribute the mesh does not provide
    let mut phase = Phase::new("poison", Flat::demanding(9, vec![77])).with_cache();
    let mesh = plain_mesh(3);
    let paint = Paint { shade: 5, usable: true };
    let first = phase.enqueue(&mesh, &slice(0, 1), &paint, &Dist { depth: 1 });
    let second = phase.enqueue(&mesh, &slice(1, 2), &paint, &Dist { depth: 2 });
    assert_eq!(first, Err(BatchError::AttributeMissing(77)));
    assert_eq!(second, first);
    assert_eq!(phase.technique.compiles.get(), 1);
    // the queue stayed empty, so the flush trivially succeeds
    let mut stream = Recorder::new();
    assert_eq!(phase.flush(&mut stream), Ok(()));
    assert!(stream.accepted.is_empty());
}

#[test]
fn rejection_is_a_routing_decision() {
    let mut phase = Phase::new("flat", Flat::new(1));
    let mesh = plain_mesh(3);
    assert!(!phase.does_apply(&mesh, &Paint { shade: 1, usable: false }));
    let r = phase.enqueue(&mesh, &slice(0, 1), &Paint { shade: 1, usable: false }, &Dist {
        depth: 0,
    });
    assert_eq!(r, Ok(false));
    assert_eq!(phase.technique.compiles.get(), 0);
}

#[test]
fn noop_cache_is_observably_equivalent_on_cold_keys() {
    let mut plain = Phase::new("plain", Flat::new(4)).with_sort(Sort::FrontToBack);
    let mut cached = Phase::new("cached", Flat::new(4)).with_sort(Sort::FrontToBack).with_cache();
    let outcomes_plain = enqueue_three(&mut plain);
    let outcomes_cached = enqueue_three(&mut cached);
    assert_eq!(outcomes_plain, outcomes_cached);
    let mut s1 = Recorder::new();
    let mut s2 = Recorder::new();
    plain.flush(&mut s1).unwrap();
    cached.flush(&mut s2).unwrap();
    assert_eq!(s1.accepted.len(), s2.accepted.len());
    for (a, b) in s1.accepted.iter().zip(s2.accepted.iter()) {
        assert_eq!(a.program, b.program);
        assert_eq!(a.mesh_id, b.mesh_id);
        assert_eq!(a.slice, b.slice);
        assert_eq!(a.params, b.params);
        assert_eq!(a.state, b.state);
        assert_eq!(a.instances, b.instances);
    }
}

#[test]
fn flush_clears_even_on_failure() {
    let mut phase = Phase::new("flat", Flat::new(1));
    enqueue_three(&mut phase);
    // the second draw call is rejected by the target
    let mut stream = Recorder::failing_after(1);
    assert_eq!(phase.flush(&mut stream), Err(DrawError::OutOfBounds));
    assert_eq!(stream.accepted.len(), 1);
    // the queue was cleared regardless: a fresh flush issues nothing
    let mut retry = Recorder::new();
    assert_eq!(phase.flush(&mut retry), Ok(()));
    assert!(retry.accepted.is_empty());
    // and a fresh cycle behaves as on a new phase
    enqueue_three(&mut phase);
    let mut again = Recorder::new();
    assert_eq!(phase.flush(&mut again), Ok(()));
    let depths: Vec<u64> = again.accepted.iter().map(|c| c.params).collect();
    assert_eq!(depths, vec![5000, 1000, 3000]);
}

#[test]
fn instancing_merges_extra_attributes() {
    struct Sprinkler;
    impl Material for Sprinkler {}
    struct Instanced;
    impl Technique<Sprinkler, Dist> for Instanced {
        type Kernel = u64;
        type Params = u64;
        fn spec_test(&self, _mesh: gfx_phase::types::MeshView, _material: Sprinkler) -> Option<u64> {
            unreachable!()
        }
        fn spec_compile(&self, _kernel: u64, _view: Dist) -> gfx_phase::phase::TechSpec<u64> {
            unreachable!()
        }
        fn spec_fix(&self, _material: Sprinkler, _view: Dist, _params: u64) -> u64 {
            unreachable!()
        }
        fn test(&self, _mesh: &Mesh, _material: &Sprinkler) -> Option<u64> {
            Some(1)
        }
        fn compile(&self, _kernel: u64, _view: &Dist) -> TechResult<u64> {
            TechResult {
                // input 9 is provided only by the extra instancing attribute
                program: Program { id: 5, inputs: vec![1, 9] },
                params: 0,
                state: DrawState { id: 0 },
                instancing: Some((16, vec![Attribute { name: 9, buffer: 90 }])),
            }
        }
        fn fix_params(&self, _material: &Sprinkler, _view: &Dist, _params: &mut u64) {}
    }

    let mut phase = Phase::new("instanced", Instanced);
    let mesh = plain_mesh(2);
    let r = phase.enqueue(&mesh, &slice(0, 2), &Sprinkler, &Dist { depth: 0 });
    assert_eq!(r, Ok(true));
    let mut stream = Recorder::new();
    phase.flush(&mut stream).unwrap();
    assert_eq!(stream.accepted.len(), 1);
    assert_eq!(stream.accepted[0].instances, Some(16));
}

#[test]
fn sort_by_program_groups_draws() {
    struct TwoPrograms;
    impl Technique<Paint, Dist> for TwoPrograms {
        type Kernel = u64;
        type Params = u64;
        fn spec_test(&self, _mesh: gfx_phase::types::MeshView, _material: Paint) -> Option<u64> {
            unreachable!()
        }
        fn spec_compile(&self, _kernel: u64, _view: Dist) -> gfx_phase::phase::TechSpec<u64> {
            unreachable!()
        }
        fn spec_fix(&self, _material: Paint, _view: Dist, _params: u64) -> u64 {
            unreachable!()
        }
        fn test(&self, _mesh: &Mesh, material: &Paint) -> Option<u64> {
            Some(material.shade)
        }
        fn compile(&self, kernel: u64, _view: &Dist) -> TechResult<u64> {
            TechResult {
                program: Program { id: kernel, inputs: Vec::new() },
                params: kernel,
                state: DrawState { id: 0 },
                instancing: None,
            }
        }
        fn fix_params(&self, _material: &Paint, _view: &Dist, _params: &mut u64) {}
    }

    let mut phase = Phase::new("grouped", TwoPrograms).with_sort(Sort::Program);
    let mesh = plain_mesh(1);
    for shade in [9u64, 2, 9, 2, 1] {
        phase
            .enqueue(&mesh, &slice(0, 1), &Paint { shade, usable: true }, &Dist { depth: 0 })
            .unwrap();
    }
    let mut stream = Recorder::new();
    phase.flush(&mut stream).unwrap();
    let programs: Vec<u64> = stream.accepted.iter().map(|c| c.program).collect();
    assert_eq!(programs, vec![1, 2, 2, 9, 9]);
}
