//! The draw queue's reconciliation and ordering, the world hierarchy
//! update, report arithmetic, batch linking, and the culling front-end.

use gfx_phase::cull::{Bound, Context, Frustum, Relation};
use gfx_phase::phase::{
    back_to_front, front_to_back, Material, Object, Phase, Sort, Stream, TechResult, Technique,
    ToDepth, DrawCall,
};
use gfx_phase::memory::{CacheMap, Memory};
use gfx_phase::queue::Queue;
use gfx_phase::scene::{Camera, Entity, Error, Fragment, Node, Report, ViewInfo};
use gfx_phase::space::{Bone, Id, Parent, Shift, Skeleton, Transform, World};
use gfx_phase::types::{
    Attribute, Batch, BatchError, DrawError, DrawState, Mesh, Program, Slice,
};

fn mesh_with(id: u64, buffers: &[u64]) -> Mesh {
    Mesh {
        id,
        num_vertices: 3,
        attributes: buffers.iter().map(|b| Attribute { name: *b, buffer: *b }).collect(),
    }
}

fn object(depth: i64, program: u64, buffers: &[u64]) -> Object<u64, u64> {
    let batch = Batch::new(mesh_with(program, buffers), Program { id: program, inputs: vec![] })
        .unwrap();
    Object {
        batch,
        params: 0,
        slice: Slice { start: 0, end: 1 },
        instances: None,
        depth,
        kernel: 0,
        state: DrawState { id: 0 },
    }
}

fn depths_in_order(q: &Queue<Object<u64, u64>>) -> Vec<i64> {
    let mut out = Vec::new();
    let mut it = q.iter();
    while let Some(o) = it.next() {
        out.push(o.depth);
    }
    out
}

#[test]
fn update_appends_new_indices_in_push_order() {
    let mut q: Queue<Object<u64, u64>> = Queue::new();
    q.push(object(5, 1, &[]));
    q.push(object(1, 1, &[]));
    q.update();
    assert_eq!(depths_in_order(&q), vec![5, 1]);
    q.push(object(3, 1, &[]));
    q.update();
    assert_eq!(depths_in_order(&q), vec![5, 1, 3]);
}

#[test]
fn update_drops_dangling_indices_after_clear() {
    let mut q: Queue<Object<u64, u64>> = Queue::new();
    q.push(object(5, 1, &[]));
    q.push(object(1, 1, &[]));
    q.update();
    q.clear_objects();
    q.update();
    assert_eq!(depths_in_order(&q), Vec::<i64>::new());
    q.push(object(7, 1, &[]));
    q.update();
    assert_eq!(depths_in_order(&q), vec![7]);
}

#[test]
fn sort_interleaved_with_insertions_yields_each_object_once() {
    let mut q: Queue<Object<u64, u64>> = Queue::new();
    q.push(object(5, 1, &[]));
    q.push(object(1, 1, &[]));
    q.sort(&Sort::FrontToBack);
    assert_eq!(depths_in_order(&q), vec![1, 5]);
    q.push(object(3, 1, &[]));
    q.push(object(2, 1, &[]));
    q.sort(&Sort::FrontToBack);
    let mut seen = depths_in_order(&q);
    assert_eq!(seen, vec![1, 2, 3, 5]);
    seen.sort();
    seen.dedup();
    assert_eq!(seen.len(), 4);
}

#[test]
fn sorting_never_moves_the_objects_themselves() {
    let mut q: Queue<Object<u64, u64>> = Queue::new();
    q.push(object(5, 1, &[]));
    q.push(object(1, 1, &[]));
    q.push(object(3, 1, &[]));
    q.sort(&Sort::BackToFront);
    assert_eq!(depths_in_order(&q), vec![5, 3, 1]);
    // raw storage order is untouched
    let raw: Vec<i64> = (0..q.len()).map(|j| q.get(j).depth).collect();
    assert_eq!(raw, vec![5, 1, 3]);
}

#[test]
fn sort_by_mesh_groups_by_buffers() {
    let mut q: Queue<Object<u64, u64>> = Queue::new();
    q.push(object(0, 1, &[30]));
    q.push(object(1, 2, &[10]));
    q.push(object(2, 3, &[20]));
    q.sort(&Sort::Mesh);
    let programs: Vec<u64> = (0..q.len())
        .map(|j| {
            let mut it = q.iter();
            let mut o = it.next().unwrap();
            for _ in 0..j {
                o = it.next().unwrap();
            }
            o.batch.program()
        })
        .collect();
    assert_eq!(programs, vec![2, 3, 1]);
}

#[test]
fn comparator_functions_follow_depth() {
    let near = object(1, 1, &[]);
    let far = object(9, 1, &[]);
    assert_eq!(front_to_back(&near, &far), std::cmp::Ordering::Less);
    assert_eq!(back_to_front(&near, &far), std::cmp::Ordering::Greater);
    assert_eq!(front_to_back(&near, &near), std::cmp::Ordering::Equal);
}

#[test]
fn batch_link_reports_first_missing_attribute() {
    let mesh = mesh_with(1, &[10, 20]);
    let program = Program { id: 4, inputs: vec![10, 33, 44] };
    match Batch::new(mesh, program) {
        Err(BatchError::AttributeMissing(name)) => assert_eq!(name, 33),
        other => panic!("unexpected link outcome: {:?}", other.map(|_| ())),
    }
}

#[test]
fn report_totals_add_up() {
    let mut report = Report::new();
    assert_eq!(report.get_calls_total(), 0);
    report.calls_invisible = 2;
    report.calls_culled = 3;
    report.calls_rejected = 4;
    report.calls_failed = 0;
    report.calls_passed = 5;
    assert_eq!(report.get_calls_total(), 14);
}

#[test]
fn shift_transforms_compose_and_invert() {
    let a = Shift { dx: 1, dy: 2, dz: 3 };
    let b = Shift { dx: 10, dy: 20, dz: 30 };
    assert_eq!(a.concat(&b), Shift { dx: 11, dy: 22, dz: 33 });
    let inv = a.invert().unwrap();
    assert_eq!(a.concat(&inv), Shift::identity());
}

#[test]
fn world_update_resolves_node_chains() {
    let mut world: World<Shift> = World::new();
    let root = world.add_node(
        "root".to_string(),
        Parent::Root,
        Shift { dx: 1, dy: 0, dz: 0 },
    );
    let child = world.add_node(
        "child".to_string(),
        Parent::Domestic(root),
        Shift { dx: 0, dy: 2, dz: 0 },
    );
    let grandchild = world.add_node(
        "grandchild".to_string(),
        Parent::Domestic(child),
        Shift { dx: 0, dy: 0, dz: 3 },
    );
    world.update();
    assert_eq!(world.get_node(root).world, Shift { dx: 1, dy: 0, dz: 0 });
    assert_eq!(world.get_node(child).world, Shift { dx: 1, dy: 2, dz: 0 });
    assert_eq!(world.get_node(grandchild).world, Shift { dx: 1, dy: 2, dz: 3 });
}

#[test]
fn find_node_returns_the_first_match() {
    let mut world: World<Shift> = World::new();
    world.add_node("alpha".to_string(), Parent::Root, Shift::identity());
    let beta = world.add_node("beta".to_string(), Parent::Root, Shift::identity());
    world.add_node("beta".to_string(), Parent::Root, Shift::identity());
    let found = world.find_node("beta").unwrap();
    assert_eq!(world.get_node(found).name, "beta");
    assert_eq!(found.0, beta.0);
    assert!(world.find_node("gamma").is_none());
}

#[test]
fn mut_node_writes_into_the_arena() {
    let mut world: World<Shift> = World::new();
    let id = world.add_node("n".to_string(), Parent::Root, Shift::identity());
    world.mut_node(id).local = Shift { dx: 9, dy: 0, dz: 0 };
    world.update();
    assert_eq!(world.get_node(id).world, Shift { dx: 9, dy: 0, dz: 0 });
}

// --- culling front-end -------------------------------------------------

/// A half-space bound: outside when the translated depth goes negative.
struct DepthBound;

impl Bound<Shift> for DepthBound {
    // specification members are never called at run time
    fn spec_relate(&self, _mvp: Shift) -> Relation {
        unreachable!()
    }

    fn relate_clip_space(&self, mvp: &Shift) -> Relation {
        if mvp.dz < 0 {
            Relation::Out
        } else {
            Relation::In
        }
    }
}

struct FixedCamera;

impl Node for FixedCamera {
    type Transform = Shift;
    fn spec_transform(&self) -> Shift {
        unreachable!()
    }
    fn get_transform(&self) -> Shift {
        Shift::identity()
    }
}

impl Camera for FixedCamera {
    fn spec_projection(&self) -> Shift {
        unreachable!()
    }
    fn get_projection(&self) -> Shift {
        Shift::identity()
    }
}

#[derive(Clone, Copy)]
struct SceneView {
    mvp: Shift,
}

impl ToDepth for SceneView {
    fn spec_depth(&self) -> i64 {
        unreachable!()
    }
    fn to_depth(&self) -> i64 {
        self.mvp.dz
    }
}

impl ViewInfo<Shift> for SceneView {
    fn spec_new(_mvp: Shift, _view: Shift, _model: Shift) -> SceneView {
        unreachable!()
    }
    fn new(mvp: Shift, _view: Shift, _model: Shift) -> SceneView {
        SceneView { mvp }
    }
}

struct Prop {
    visible: bool,
    place: Shift,
    mesh: Mesh,
    fragments: Vec<Fragment<Dye>>,
}

struct Dye {
    usable: bool,
}

impl Material for Dye {}

impl Node for Prop {
    type Transform = Shift;
    fn spec_transform(&self) -> Shift {
        unreachable!()
    }
    fn get_transform(&self) -> Shift {
        self.place
    }
}

impl Entity<Dye> for Prop {
    type Bound = DepthBound;
    fn spec_visible(&self) -> bool {
        unreachable!()
    }
    fn spec_bound(&self) -> DepthBound {
        unreachable!()
    }
    fn spec_mesh(&self) -> gfx_phase::types::MeshView {
        unreachable!()
    }
    fn spec_fragments(&self) -> vstd::seq::Seq<Fragment<Dye>> {
        unreachable!()
    }
    fn is_visible(&self) -> bool {
        self.visible
    }
    fn get_bound(&self) -> DepthBound {
        DepthBound
    }
    fn get_mesh(&self) -> &Mesh {
        &self.mesh
    }
    fn get_fragments(&self) -> &Vec<Fragment<Dye>> {
        &self.fragments
    }
}

struct SceneTech;

impl Technique<Dye, SceneView> for SceneTech {
    type Kernel = u64;
    type Params = u64;
    fn spec_test(&self, _mesh: gfx_phase::types::MeshView, _material: Dye) -> Option<u64> {
        unreachable!()
    }
    fn spec_compile(&self, _kernel: u64, _view: SceneView) -> gfx_phase::phase::TechSpec<u64> {
        unreachable!()
    }
    fn spec_fix(&self, _material: Dye, _view: SceneView, _params: u64) -> u64 {
        unreachable!()
    }
    fn test(&self, _mesh: &Mesh, material: &Dye) -> Option<u64> {
        if material.usable {
            Some(1)
        } else {
            None
        }
    }
    fn compile(&self, _kernel: u64, _view: &SceneView) -> TechResult<u64> {
        TechResult {
            program: Program { id: 1, inputs: vec![] },
            params: 0,
            state: DrawState { id: 0 },
            instancing: None,
        }
    }
    fn fix_params(&self, _material: &Dye, view: &SceneView, params: &mut u64) {
        *params = view.mvp.dz as u64;
    }
}

struct Sink {
    accepted: Vec<DrawCall<u64>>,
}

impl Stream<u64> for Sink {
    fn calls(&self) -> vstd::seq::Seq<DrawCall<u64>> {
        unreachable!()
    }
    fn draw(&mut self, call: DrawCall<u64>) -> Result<(), DrawError> {
        self.accepted.push(call);
        Ok(())
    }
}

fn prop(visible: bool, dz: i64, fragments: Vec<Fragment<Dye>>) -> Prop {
    Prop {
        visible,
        place: Shift { dx: 0, dy: 0, dz },
        mesh: mesh_with(1, &[]),
        fragments,
    }
}

#[test]
fn scene_draw_tallies_every_fragment() {
    let frag = |usable: bool| Fragment::new(Dye { usable }, Slice { start: 0, end: 4 });
    let entities = vec![
        // invisible: 2 fragments
        prop(false, 5, vec![frag(true), frag(true)]),
        // culled out (negative depth): 1 fragment
        prop(true, -3, vec![frag(true)]),
        // drawn: one passing fragment (4 primitives), one rejected
        prop(true, 7, vec![frag(true), frag(false)]),
    ];
    let camera = FixedCamera;
    let mut context: Context<Shift, DepthBound, Frustum<Shift, DepthBound>> =
        Context::new(Frustum::new(), &camera);
    let mut phase = Phase::new("scene", SceneTech);
    let mut sink = Sink { accepted: Vec::new() };
    let report: Report = context
        .draw::<Dye, Prop, SceneView, u64, Sink, _>(&entities, &mut phase, &mut sink)
        .unwrap();
    assert_eq!(report.calls_invisible, 2);
    assert_eq!(report.calls_culled, 1);
    assert_eq!(report.calls_rejected, 1);
    assert_eq!(report.calls_passed, 1);
    assert_eq!(report.calls_failed, 0);
    assert_eq!(report.primitives_rendered, 4);
    assert_eq!(report.get_calls_total(), 5);
    assert_eq!(sink.accepted.len(), 1);
    assert_eq!(sink.accepted[0].params, 7);
}

#[test]
fn unit_culler_never_rejects() {
    let camera = FixedCamera;
    let mut context: Context<Shift, DepthBound, ()> = Context::new((), &camera);
    let mut phase = Phase::new("scene", SceneTech);
    let mut sink = Sink { accepted: Vec::new() };
    let entities = vec![prop(true, -3, vec![Fragment::new(Dye { usable: true }, Slice {
        start: 0,
        end: 1,
    })])];
    let report = context
        .draw::<Dye, Prop, SceneView, u64, Sink, _>(&entities, &mut phase, &mut sink)
        .unwrap();
    assert_eq!(report.calls_culled, 0);
    assert_eq!(report.calls_passed, 1);
}

#[test]
fn batch_error_aborts_the_scene_pass() {
    struct Demanding;
    impl Technique<Dye, SceneView> for Demanding {
        type Kernel = u64;
        type Params = u64;
        fn spec_test(&self, _mesh: gfx_phase::types::MeshView, _material: Dye) -> Option<u64> {
            unreachable!()
        }
        fn spec_compile(&self, _kernel: u64, _view: SceneView) -> gfx_phase::phase::TechSpec<u64> {
            unreachable!()
        }
        fn spec_fix(&self, _material: Dye, _view: SceneView, _params: u64) -> u64 {
            unreachable!()
        }
        fn test(&self, _mesh: &Mesh, _material: &Dye) -> Option<u64> {
            Some(1)
        }
        fn compile(&self, _kernel: u64, _view: &SceneView) -> TechResult<u64> {
            TechResult {
                program: Program { id: 1, inputs: vec![99] },
                params: 0,
                state: DrawState { id: 0 },
                instancing: None,
            }
        }
        fn fix_params(&self, _material: &Dye, _view: &SceneView, _params: &mut u64) {}
    }

    let camera = FixedCamera;
    let mut context: Context<Shift, DepthBound, ()> = Context::new((), &camera);
    let mut phase = Phase::new("scene", Demanding);
    let mut sink = Sink { accepted: Vec::new() };
    let entities = vec![prop(true, 3, vec![Fragment::new(Dye { usable: true }, Slice {
        start: 0,
        end: 1,
    })])];
    let r = context.draw::<Dye, Prop, SceneView, u64, Sink, _>(&entities, &mut phase, &mut sink);
    assert_eq!(r, Err(Error::Batch(BatchError::AttributeMissing(99))));
    assert!(sink.accepted.is_empty());
}

#[test]
fn skeleton_bones_follow_their_node() {
    let mut world: World<Shift> = World::new();
    let root = world.add_node(
        "root".to_string(),
        Parent::Root,
        Shift { dx: 10, dy: 0, dz: 0 },
    );
    let bone_at = |name: &str, parent, dy: i64| Bone {
        name: name.to_string(),
        parent,
        local: Shift { dx: 0, dy, dz: 0 },
        world: Shift::identity(),
        bind_pose: Shift::identity(),
        bind_pose_root_inverse: Shift::identity(),
    };
    let skeleton = Skeleton {
        name: "arm".to_string(),
        node: root,
        bones: vec![bone_at("upper", None, 1), bone_at("lower", Some(Id::new(0)), 2)],
    };
    let sid = world.add_skeleton(skeleton);
    // a node hanging from the second bone
    let hand = world.add_node(
        "hand".to_string(),
        Parent::Foreign(sid, Id::new(1)),
        Shift { dx: 0, dy: 0, dz: 4 },
    );
    world.update();
    // bones compose with the (updated) root node world
    // upper: (10,0,0)+(0,1,0); lower: upper + (0,2,0)
    // the hand read the lower bone's world as it stood BEFORE this update
    assert_eq!(world.get_node(hand).world, Shift { dx: 0, dy: 0, dz: 4 });
    world.update();
    // after a second pass the hand follows the updated bone
    assert_eq!(world.get_node(hand).world, Shift { dx: 10, dy: 3, dz: 4 });
}

#[test]
fn view_projection_composes_projection_with_inverse_camera() {
    struct PlacedCamera;
    impl Node for PlacedCamera {
        type Transform = Shift;
        fn spec_transform(&self) -> Shift {
            unreachable!()
        }
        fn get_transform(&self) -> Shift {
            Shift { dx: 3, dy: 0, dz: 0 }
        }
    }
    impl Camera for PlacedCamera {
        fn spec_projection(&self) -> Shift {
            unreachable!()
        }
        fn get_projection(&self) -> Shift {
            Shift { dx: 0, dy: 0, dz: 100 }
        }
    }
    let vp = PlacedCamera.get_view_projection();
    assert_eq!(vp, Shift { dx: -3, dy: 0, dz: 100 });
}

#[test]
fn cache_store_overwrites_prior_entries() {
    let mut cache: CacheMap<(u64, u64), u32> = CacheMap::new();
    assert!(cache.lookup(&(1, 2)).is_none());
    cache.store((1, 2), Ok(10));
    cache.store((3, 2), Err(BatchError::AttributeMissing(9)));
    assert_eq!(cache.lookup(&(1, 2)), Some(&Ok(10)));
    assert_eq!(cache.lookup(&(3, 2)), Some(&Err(BatchError::AttributeMissing(9))));
    // an overwrite replaces the remembered outcome
    cache.store((1, 2), Ok(11));
    assert_eq!(cache.lookup(&(1, 2)), Some(&Ok(11)));
    assert!(cache.lookup(&(1, 3)).is_none());
}

#[test]
fn sort_by_state_groups_draws() {
    let mut q: Queue<Object<u64, u64>> = Queue::new();
    let with_state = |depth: i64, state: u64| {
        let mut o = object(depth, 1, &[]);
        o.state = DrawState { id: state };
        o
    };
    q.push(with_state(0, 7));
    q.push(with_state(1, 3));
    q.push(with_state(2, 7));
    q.sort(&Sort::DrawState);
    let states: Vec<u64> = (0..q.len()).map(|j| q.get_order(j).state.id).collect();
    assert_eq!(states, vec![3, 7, 7]);
}

#[test]
fn world_ids_are_stable_across_updates() {
    let mut world: World<Shift> = World::new();
    let a: Id<gfx_phase::space::Node<Shift>> =
        world.add_node("a".to_string(), Parent::Root, Shift { dx: 4, dy: 0, dz: 0 });
    world.update();
    world.update();
    assert_eq!(world.get_node(a).world, Shift { dx: 4, dy: 0, dz: 0 });
}
