//! Spatial scaffolding: an abstract transform capability, and a world of
//! named nodes whose world-space transforms are recomputed from a parent
//! hierarchy that may reach through skeleton bones.

use vstd::prelude::*;

verus! {

/// An abstract spatial transform: composable, invertible, with an identity.
/// Composition and inversion are deterministic, which is what the world
/// update below is specified against.
pub trait Transform: Sized + Copy {
    /// What composition yields.
    spec fn spec_concat(self, other: Self) -> Self;

    /// What inversion yields, where the transform is invertible.
    spec fn spec_invert(self) -> Option<Self>;

    /// The identity transform.
    spec fn spec_identity() -> Self;

    /// Compose `self` with `other` (`self` applied after `other`).
    fn concat(&self, other: &Self) -> (r: Self)
        ensures
            r == self.spec_concat(*other),
    ;

    /// Invert, where possible.
    fn invert(&self) -> (r: Option<Self>)
        ensures
            r == self.spec_invert(),
    ;

    /// Produce the identity transform.
    fn identity() -> (r: Self)
        ensures
            r == Self::spec_identity(),
    ;
}

/// An integer translation in three axes, wrapping on overflow: a small
/// concrete transform, enough to exercise the world and culling machinery.
#[derive(Clone, Copy, PartialEq, Eq, Structural, Debug)]
pub struct Shift {
    /// Offset along the first axis.
    pub dx: i64,
    /// Offset along the second axis.
    pub dy: i64,
    /// Offset along the third axis.
    pub dz: i64,
}

impl Transform for Shift {
    open spec fn spec_concat(self, other: Self) -> Self {
        Shift {
            dx: vstd::wrapping::i64_specs::wrapping_add(self.dx, other.dx),
            dy: vstd::wrapping::i64_specs::wrapping_add(self.dy, other.dy),
            dz: vstd::wrapping::i64_specs::wrapping_add(self.dz, other.dz),
        }
    }

    open spec fn spec_invert(self) -> Option<Self> {
        Some(
            Shift {
                dx: vstd::wrapping::i64_specs::wrapping_sub(0, self.dx),
                dy: vstd::wrapping::i64_specs::wrapping_sub(0, self.dy),
                dz: vstd::wrapping::i64_specs::wrapping_sub(0, self.dz),
            },
        )
    }

    open spec fn spec_identity() -> Self {
        Shift { dx: 0, dy: 0, dz: 0 }
    }

    fn concat(&self, other: &Self) -> (r: Self) {
        Shift {
            dx: self.dx.wrapping_add(other.dx),
            dy: self.dy.wrapping_add(other.dy),
            dz: self.dz.wrapping_add(other.dz),
        }
    }

    fn invert(&self) -> (r: Option<Self>) {
        let zero: i64 = 0;
        Some(
            Shift {
                dx: zero.wrapping_sub(self.dx),
                dy: zero.wrapping_sub(self.dy),
                dz: zero.wrapping_sub(self.dz),
            },
        )
    }

    fn identity() -> (r: Self) {
        Shift { dx: 0, dy: 0, dz: 0 }
    }
}

/// A typed index into one of the world's arenas.
pub struct Id<T>(pub u32, pub core::marker::PhantomData<T>);

impl<T> Id<T> {
    /// The index as an integer.
    pub open spec fn idx(self) -> int {
        self.0 as int
    }

    /// Wrap an index.
    pub fn new(value: u32) -> (r: Id<T>)
        ensures
            r.idx() == value as int,
    {
        Id(value, core::marker::PhantomData)
    }
}

impl<T> Clone for Id<T> {
    fn clone(&self) -> (r: Self)
        ensures
            r == *self,
    {
        Id(self.0, core::marker::PhantomData)
    }
}

impl<T> Copy for Id<T> {

}

/// Where a node hangs in the hierarchy: at the root, under another node, or
/// under a bone of a skeleton.
pub enum Parent<T> {
    /// No parent: the node's world transform is its local transform.
    Root,
    /// Parented to another node, which must come earlier in the arena.
    Domestic(Id<Node<T>>),
    /// Parented to a bone of a skeleton.
    Foreign(Id<Skeleton<T>>, Id<Bone<T>>),
}

impl<T> Clone for Parent<T> {
    fn clone(&self) -> (r: Self)
        ensures
            r == *self,
    {
        match self {
            Parent::Root => Parent::Root,
            Parent::Domestic(id) => Parent::Domestic(*id),
            Parent::Foreign(s, b) => Parent::Foreign(*s, *b),
        }
    }
}

impl<T> Copy for Parent<T> {

}

/// A named node with a local transform and a derived world transform.
pub struct Node<T> {
    /// Node name, used by lookups.
    pub name: String,
    /// Where the node hangs.
    pub parent: Parent<T>,
    /// Local transform, relative to the parent.
    pub local: T,
    /// World transform, recomputed by [`World::update`].
    pub world: T,
}

/// A skeleton bone: a node-like element parented to an earlier bone of the
/// same skeleton, or to the skeleton's root node.
pub struct Bone<T> {
    /// Bone name.
    pub name: String,
    /// The earlier bone this one hangs under, if any.
    pub parent: Option<Id<Bone<T>>>,
    /// Local transform, relative to the parent.
    pub local: T,
    /// World transform, recomputed by [`World::update`].
    pub world: T,
    /// Rest-pose transform, kept for skinning.
    pub bind_pose: T,
    /// Inverse of the rest pose at the root, kept for skinning.
    pub bind_pose_root_inverse: T,
}

/// A named set of bones hanging under one node.
pub struct Skeleton<T> {
    /// Skeleton name.
    pub name: String,
    /// The node the skeleton hangs under.
    pub node: Id<Node<T>>,
    /// The bones, each parented to an earlier one or to the node.
    pub bones: Vec<Bone<T>>,
}

/// A world of nodes and skeletons whose world transforms are derived from
/// the parent hierarchy.
pub struct World<T> {
    nodes: Vec<Node<T>>,
    skeletons: Vec<Skeleton<T>>,
}

impl<T: Transform> World<T> {
    /// The node arena.
    pub closed spec fn spec_nodes(&self) -> Seq<Node<T>> {
        self.nodes@
    }

    /// The skeleton arena.
    pub closed spec fn spec_skeletons(&self) -> Seq<Skeleton<T>> {
        self.skeletons@
    }

    /// Parents come before their children, and every cross-reference lands
    /// in its arena: what [`World::update`] needs to resolve the hierarchy
    /// in one pass.
    pub open spec fn wf(&self) -> bool {
        &&& forall|i: int| 0 <= i < self.spec_nodes().len() ==> match (
        #[trigger] self.spec_nodes()[i]).parent {
            Parent::Root => true,
            Parent::Domestic(p) => p.idx() < i,
            Parent::Foreign(s, b) => 0 <= s.idx() < self.spec_skeletons().len() && 0 <= b.idx()
                < self.spec_skeletons()[s.idx()].bones@.len(),
        }
        &&& forall|s: int| 0 <= s < self.spec_skeletons().len() ==> 0 <= (
        #[trigger] self.spec_skeletons()[s]).node.idx() < self.spec_nodes().len()
        &&& forall|s: int, b: int|
            0 <= s < self.spec_skeletons().len() && 0 <= b < self.spec_skeletons()[s].bones@.len()
                ==> match (#[trigger] self.spec_skeletons()[s].bones@[b]).parent {
                Option::Some(p) => p.idx() < b,
                Option::None => true,
            }
    }

    /// Create an empty world.
    pub fn new() -> (w: World<T>)
        ensures
            w.wf(),
            w.spec_nodes() == Seq::<Node<T>>::empty(),
            w.spec_skeletons() == Seq::<Skeleton<T>>::empty(),
    {
        World { nodes: Vec::new(), skeletons: Vec::new() }
    }

    /// Read a node.
    pub fn get_node(&self, id: Id<Node<T>>) -> (r: &Node<T>)
        requires
            0 <= id.idx() < self.spec_nodes().len(),
        ensures
            *r == self.spec_nodes()[id.idx()],
    {
        &self.nodes[id.0 as usize]
    }

    /// Borrow a node mutably; the caller's writes land in the arena.
    pub fn mut_node(&mut self, id: Id<Node<T>>) -> (r: &mut Node<T>)
        requires
            0 <= id.idx() < old(self).spec_nodes().len(),
        ensures
            *r == old(self).spec_nodes()[id.idx()],
            final(self).spec_nodes() == old(self).spec_nodes().update(id.idx(), *final(r)),
            final(self).spec_skeletons() == old(self).spec_skeletons(),
    {
        &mut self.nodes[id.0 as usize]
    }

    /// Find the first node carrying a name.
    pub fn find_node(&self, name: &str) -> (r: Option<Id<Node<T>>>)
        requires
            self.spec_nodes().len() <= u32::MAX,
        ensures
            match r {
                Some(id) => {
                    &&& 0 <= id.idx() < self.spec_nodes().len()
                    &&& self.spec_nodes()[id.idx()].name@ == name@
                    &&& forall|j: int|
                        0 <= j < id.idx() ==> (#[trigger] self.spec_nodes()[j]).name@ != name@
                },
                None => forall|j: int|
                    0 <= j < self.spec_nodes().len() ==> (#[trigger] self.spec_nodes()[j]).name@
                        != name@,
            },
    {
        let target: String = name.to_owned();
        let n = self.nodes.len();
        let mut i: usize = 0;
        while i < n
            invariant
                i <= n,
                n == self.spec_nodes().len(),
                n <= u32::MAX,
                target@ == name@,
                forall|j: int| 0 <= j < i ==> (#[trigger] self.spec_nodes()[j]).name@ != name@,
            decreases n - i,
        {
            let hit = self.nodes[i].name == target;
            proof {
                assert(hit == (self.spec_nodes()[i as int].name@ == target@));
            }
            if hit {
                return Some(Id(i as u32, core::marker::PhantomData));
            }
            i = i + 1;
        }
        None
    }

    /// Append a node under a given parent; its world transform starts at
    /// the identity until the next update.
    pub fn add_node(&mut self, name: String, parent: Parent<T>, local: T) -> (r: Id<Node<T>>)
        requires
            old(self).wf(),
            old(self).spec_nodes().len() < u32::MAX,
            match parent {
                Parent::Root => true,
                Parent::Domestic(p) => 0 <= p.idx() < old(self).spec_nodes().len(),
                Parent::Foreign(s, b) => 0 <= s.idx() < old(self).spec_skeletons().len() && 0
                    <= b.idx() < old(self).spec_skeletons()[s.idx()].bones@.len(),
            },
        ensures
            final(self).wf(),
            r.idx() == old(self).spec_nodes().len(),
            final(self).spec_nodes() == old(self).spec_nodes().push(
                Node { name, parent, local, world: T::spec_identity() },
            ),
            final(self).spec_skeletons() == old(self).spec_skeletons(),
    {
        let nid = Id(self.nodes.len() as u32, core::marker::PhantomData);
        self.nodes.push(Node { name, parent, local, world: T::identity() });
        nid
    }

    /// Append a skeleton hanging under a node; bones must already be
    /// parented to earlier bones only.
    pub fn add_skeleton(&mut self, skeleton: Skeleton<T>) -> (r: Id<Skeleton<T>>)
        requires
            old(self).wf(),
            old(self).spec_skeletons().len() < u32::MAX,
            0 <= skeleton.node.idx() < old(self).spec_nodes().len(),
            forall|b: int| 0 <= b < skeleton.bones@.len() ==> match (
            #[trigger] skeleton.bones@[b]).parent {
                Option::Some(p) => p.idx() < b,
                Option::None => true,
            },
        ensures
            final(self).wf(),
            r.idx() == old(self).spec_skeletons().len(),
            final(self).spec_skeletons() == old(self).spec_skeletons().push(skeleton),
            final(self).spec_nodes() == old(self).spec_nodes(),
    {
        let sid = Id(self.skeletons.len() as u32, core::marker::PhantomData);
        self.skeletons.push(skeleton);
        sid
    }
}

impl<T: Transform> World<T> {
    /// Recompute every world transform from the hierarchy, in one pass over
    /// the nodes (parents come first, so each node reads an already-updated
    /// parent; a bone parent is read as it stood before this update) and
    /// one pass over the skeletons (each bone reads its already-updated
    /// predecessor, or the updated world of the skeleton's node).
    pub fn update(&mut self)
        requires
            old(self).wf(),
        ensures
            final(self).wf(),
            final(self).spec_nodes().len() == old(self).spec_nodes().len(),
            final(self).spec_skeletons().len() == old(self).spec_skeletons().len(),
            forall|i: int| 0 <= i < old(self).spec_nodes().len() ==> node_updated(
                old(self).spec_nodes(),
                old(self).spec_skeletons(),
                final(self).spec_nodes(),
                i,
            ),
            forall|s: int| 0 <= s < old(self).spec_skeletons().len() ==> skeleton_updated(
                old(self).spec_skeletons(),
                final(self).spec_nodes(),
                final(self).spec_skeletons(),
                s,
            ),
    {
        let n = self.nodes.len();
        let mut i: usize = 0;
        while i < n
            invariant
                i <= n,
                old(self).wf(),
                n == self.spec_nodes().len(),
                n == old(self).spec_nodes().len(),
                self.spec_skeletons() == old(self).spec_skeletons(),
                forall|j: int| i <= j < n ==> #[trigger] self.spec_nodes()[j] == old(
                    self,
                ).spec_nodes()[j],
                forall|j: int| 0 <= j < i ==> node_updated(
                    old(self).spec_nodes(),
                    old(self).spec_skeletons(),
                    self.spec_nodes(),
                    j,
                ),
            decreases n - i,
        {
            let parent = self.nodes[i].parent;
            let local = self.nodes[i].local;
            let w: T = match parent {
                Parent::Root => local,
                Parent::Domestic(p) => self.nodes[p.0 as usize].world.concat(&local),
                Parent::Foreign(s, b) => self.skeletons[s.0 as usize].bones[b.0
                    as usize].world.concat(&local),
            };
            let name = self.nodes[i].name.clone();
            let ghost pre = self.spec_nodes();
            self.nodes[i] = Node { name, parent, local, world: w };
            proof {
                assert(self.spec_nodes() =~= pre.update(i as int, self.spec_nodes()[i as int]));
                assert forall|j: int| 0 <= j < i + 1 implies node_updated(
                    old(self).spec_nodes(),
                    old(self).spec_skeletons(),
                    self.spec_nodes(),
                    j,
                ) by {
                    if j < i {
                        assert(node_updated(
                            old(self).spec_nodes(),
                            old(self).spec_skeletons(),
                            pre,
                            j,
                        ));
                    }
                }
            }
            i = i + 1;
        }
        let ns = self.skeletons.len();
        let ghost nodes_done = self.spec_nodes();
        let mut s: usize = 0;
        while s < ns
            invariant
                s <= ns,
                old(self).wf(),
                ns == self.spec_skeletons().len(),
                ns == old(self).spec_skeletons().len(),
                self.spec_nodes() == nodes_done,
                nodes_done.len() == old(self).spec_nodes().len(),
                forall|t: int| s <= t < ns ==> #[trigger] self.spec_skeletons()[t] == old(
                    self,
                ).spec_skeletons()[t],
                forall|t: int| 0 <= t < s ==> skeleton_updated(
                    old(self).spec_skeletons(),
                    nodes_done,
                    self.spec_skeletons(),
                    t,
                ),
                forall|i2: int| 0 <= i2 < old(self).spec_nodes().len() ==> node_updated(
                    old(self).spec_nodes(),
                    old(self).spec_skeletons(),
                    self.spec_nodes(),
                    i2,
                ),
            decreases ns - s,
        {
            let root = self.skeletons[s].node;
            let root_world = self.nodes[root.0 as usize].world;
            let nb = self.skeletons[s].bones.len();
            let mut b: usize = 0;
            while b < nb
                invariant
                    b <= nb,
                    s < ns,
                    old(self).wf(),
                    ns == self.spec_skeletons().len(),
                    ns == old(self).spec_skeletons().len(),
                    self.spec_nodes() == nodes_done,
                    nodes_done.len() == old(self).spec_nodes().len(),
                    root == old(self).spec_skeletons()[s as int].node,
                    0 <= root.idx() < nodes_done.len(),
                    root_world == nodes_done[root.idx()].world,
                    nb == self.spec_skeletons()[s as int].bones@.len(),
                    nb == old(self).spec_skeletons()[s as int].bones@.len(),
                    self.spec_skeletons()[s as int].name == old(self).spec_skeletons()[
                        s as int
                    ].name,
                    self.spec_skeletons()[s as int].node == old(self).spec_skeletons()[
                        s as int
                    ].node,
                    forall|t: int| s < t < ns ==> #[trigger] self.spec_skeletons()[t] == old(
                        self,
                    ).spec_skeletons()[t],
                    forall|t: int| 0 <= t < s ==> skeleton_updated(
                        old(self).spec_skeletons(),
                        nodes_done,
                        self.spec_skeletons(),
                        t,
                    ),
                    forall|c: int| b <= c < nb ==> #[trigger] self.spec_skeletons()[
                        s as int
                    ].bones@[c] == old(self).spec_skeletons()[s as int].bones@[c],
                    forall|c: int| 0 <= c < b ==> bone_updated(
                        old(self).spec_skeletons()[s as int],
                        nodes_done,
                        self.spec_skeletons()[s as int],
                        c,
                    ),
                decreases nb - b,
            {
                let parent = self.skeletons[s].bones[b].parent;
                let local = self.skeletons[s].bones[b].local;
                let base: T = match parent {
                    Some(p) => self.skeletons[s].bones[p.0 as usize].world,
                    None => root_world,
                };
                let w = base.concat(&local);
                let name = self.skeletons[s].bones[b].name.clone();
                let bind_pose = self.skeletons[s].bones[b].bind_pose;
                let bind_pose_root_inverse = self.skeletons[s].bones[b].bind_pose_root_inverse;
                let ghost pre = self.spec_skeletons();
                self.skeletons[s].bones[b] = Bone {
                    name,
                    parent,
                    local,
                    world: w,
                    bind_pose,
                    bind_pose_root_inverse,
                };
                proof {
                    assert(self.spec_skeletons()[s as int].bones@ =~= pre[s as int].bones@.update(
                        b as int,
                        self.spec_skeletons()[s as int].bones@[b as int],
                    ));
                    assert forall|t: int| 0 <= t < ns && t != s implies self.spec_skeletons()[t]
                        == pre[t] by {}
                    assert forall|c: int| 0 <= c < b + 1 implies bone_updated(
                        old(self).spec_skeletons()[s as int],
                        nodes_done,
                        self.spec_skeletons()[s as int],
                        c,
                    ) by {
                        if c < b {
                            assert(bone_updated(
                                old(self).spec_skeletons()[s as int],
                                nodes_done,
                                pre[s as int],
                                c,
                            ));
                        }
                    }
                    assert forall|t: int| 0 <= t < s implies skeleton_updated(
                        old(self).spec_skeletons(),
                        nodes_done,
                        self.spec_skeletons(),
                        t,
                    ) by {
                        assert(skeleton_updated(old(self).spec_skeletons(), nodes_done, pre, t));
                        assert(self.spec_skeletons()[t] == pre[t]);
                    }
                }
                b = b + 1;
            }
            proof {
                assert(skeleton_updated(
                    old(self).spec_skeletons(),
                    nodes_done,
                    self.spec_skeletons(),
                    s as int,
                ));
            }
            s = s + 1;
        }
        proof {
            assert forall|i2: int| 0 <= i2 < self.spec_nodes().len() implies match (
            #[trigger] self.spec_nodes()[i2]).parent {
                Parent::Root => true,
                Parent::Domestic(p) => p.idx() < i2,
                Parent::Foreign(sk, bn) => 0 <= sk.idx() < self.spec_skeletons().len() && 0
                    <= bn.idx() < self.spec_skeletons()[sk.idx()].bones@.len(),
            } by {
                assert(node_updated(
                    old(self).spec_nodes(),
                    old(self).spec_skeletons(),
                    self.spec_nodes(),
                    i2,
                ));
                assert(self.spec_nodes()[i2].parent == old(self).spec_nodes()[i2].parent);
                match old(self).spec_nodes()[i2].parent {
                    Parent::Foreign(sk, bn) => {
                        assert(skeleton_updated(
                            old(self).spec_skeletons(),
                            nodes_done,
                            self.spec_skeletons(),
                            sk.idx(),
                        ));
                    },
                    _ => {},
                }
            }
            assert forall|t: int| 0 <= t < self.spec_skeletons().len() implies 0 <= (
            #[trigger] self.spec_skeletons()[t]).node.idx() < self.spec_nodes().len() by {
                assert(skeleton_updated(
                    old(self).spec_skeletons(),
                    nodes_done,
                    self.spec_skeletons(),
                    t,
                ));
            }
            assert forall|t: int, c: int|
                0 <= t < self.spec_skeletons().len() && 0 <= c < self.spec_skeletons()[
                t].bones@.len() implies match (#[trigger] self.spec_skeletons()[t].bones@[
            c]).parent {
                Option::Some(p) => p.idx() < c,
                Option::None => true,
            } by {
                assert(skeleton_updated(
                    old(self).spec_skeletons(),
                    nodes_done,
                    self.spec_skeletons(),
                    t,
                ));
                assert(bone_updated(
                    old(self).spec_skeletons()[t],
                    nodes_done,
                    self.spec_skeletons()[t],
                    c,
                ));
            }
        }
    }
}

/// Node `i` of `post` is node `i` of `pre` with only its world transform
/// recomputed: its parent's already-updated world (a bone parent as it stood
/// before the update) composed with its local transform.
pub open spec fn node_updated<T: Transform>(
    pre: Seq<Node<T>>,
    pre_skeletons: Seq<Skeleton<T>>,
    post: Seq<Node<T>>,
    i: int,
) -> bool {
    let n_old = pre[i];
    let n_new = post[i];
    &&& n_new.name == n_old.name
    &&& n_new.parent == n_old.parent
    &&& n_new.local == n_old.local
    &&& n_new.world == match n_old.parent {
        Parent::Root => n_old.local,
        Parent::Domestic(p) => post[p.idx()].world.spec_concat(n_old.local),
        Parent::Foreign(sk, bn) => pre_skeletons[sk.idx()].bones@[bn.idx()].world.spec_concat(
            n_old.local,
        ),
    }
}

/// Bone `b` of `post_sk` is bone `b` of `pre_sk` with only its world
/// transform recomputed: the already-updated world of its parent bone, or
/// of the skeleton's node, composed with its local transform.
pub open spec fn bone_updated<T: Transform>(
    pre_sk: Skeleton<T>,
    nodes: Seq<Node<T>>,
    post_sk: Skeleton<T>,
    b: int,
) -> bool {
    let b_old = pre_sk.bones@[b];
    let b_new = post_sk.bones@[b];
    &&& b_new.name == b_old.name
    &&& b_new.parent == b_old.parent
    &&& b_new.local == b_old.local
    &&& b_new.bind_pose == b_old.bind_pose
    &&& b_new.bind_pose_root_inverse == b_old.bind_pose_root_inverse
    &&& b_new.world == (match b_old.parent {
        Option::Some(p) => post_sk.bones@[p.idx()].world,
        Option::None => nodes[pre_sk.node.idx()].world,
    }).spec_concat(b_old.local)
}

/// Skeleton `s` of `post` is skeleton `s` of `pre` with every bone updated.
pub open spec fn skeleton_updated<T: Transform>(
    pre: Seq<Skeleton<T>>,
    nodes: Seq<Node<T>>,
    post: Seq<Skeleton<T>>,
    s: int,
) -> bool {
    let sk_old = pre[s];
    let sk_new = post[s];
    &&& sk_new.name == sk_old.name
    &&& sk_new.node == sk_old.node
    &&& sk_new.bones@.len() == sk_old.bones@.len()
    &&& forall|b: int| 0 <= b < sk_old.bones@.len() ==> #[trigger] bone_updated(
        sk_old,
        nodes,
        sk_new,
        b,
    )
}

} // verus!
