//! Generic draw queue that keeps item ordering between frames: objects live
//! in an append-friendly arena, and the drawing order is a separate list of
//! indices, so a re-sort permutes small indices instead of whole objects and
//! the raw insertion order stays recoverable.

use vstd::prelude::*;
use vstd::pervasive::VecAdditionalExecFns;
use vstd::set_lib::{set_int_range, lemma_int_range, lemma_len_subset, lemma_subset_equality};

verus! {

/// `s` is a permutation of the indices `0 .. n`: right length, every entry
/// in range, no entry repeated.
pub open spec fn perm_of(s: Seq<u32>, n: int) -> bool {
    &&& s.len() == n
    &&& forall|j: int| 0 <= j < s.len() ==> (#[trigger] s[j]) < n
    &&& forall|j: int, k: int| 0 <= j < k < s.len() ==> s[j] != s[k]
}

/// `s` mentions the value `v` somewhere.
pub open spec fn has_value(s: Seq<u32>, v: int) -> bool {
    exists|j: int| 0 <= j < s.len() && s[j] == v
}

/// A permutation of `0 .. n` mentions every index below `n`.
pub proof fn lemma_perm_surjective(s: Seq<u32>, n: int)
    requires
        perm_of(s, n),
    ensures
        forall|v: int| 0 <= v < n ==> #[trigger] has_value(s, v),
{
    lemma_distinct_bounded_complete(s, n);
}

/// A sequence of distinct values below `m`, of length `m`, mentions every
/// value below `m`; conversely a distinct sequence that mentions every value
/// below `m` and nothing else has length `m`. Both directions are the
/// pigeonhole argument, run through set cardinalities.
proof fn lemma_distinct_bounded_complete(s: Seq<u32>, m: int)
    requires
        0 <= m,
        forall|j: int| 0 <= j < s.len() ==> (#[trigger] s[j]) < m,
        forall|j: int, k: int| 0 <= j < k < s.len() ==> s[j] != s[k],
        s.len() == m || forall|v: int| 0 <= v < m ==> #[trigger] has_value(s, v),
    ensures
        s.len() == m,
        forall|v: int| 0 <= v < m ==> #[trigger] has_value(s, v),
{
    let ints = s.map_values(|x: u32| x as int);
    assert(ints.no_duplicates());
    ints.unique_seq_to_set();
    lemma_int_range(0, m);
    let range = set_int_range(0, m);
    assert(ints.to_set().subset_of(range)) by {
        assert forall|v: int| ints.to_set().contains(v) implies range.contains(v) by {
            let j = choose|j: int| 0 <= j < ints.len() && ints[j] == v;
            assert(s[j] < m);
        }
    }
    lemma_len_subset(ints.to_set(), range);
    if s.len() == m {
        lemma_subset_equality(ints.to_set(), range);
        assert forall|v: int| 0 <= v < m implies #[trigger] has_value(s, v) by {
            assert(ints.to_set().contains(v));
            let j = choose|j: int| 0 <= j < ints.len() && ints[j] == v;
            assert(0 <= j < s.len() && s[j] == v);
        }
    } else {
        assert(range.subset_of(ints.to_set())) by {
            assert forall|v: int| range.contains(v) implies ints.to_set().contains(v) by {
                assert(has_value(s, v));
                let j = choose|j: int| 0 <= j < s.len() && s[j] == v;
                assert(ints[j] == v);
            }
        }
        lemma_len_subset(range, ints.to_set());
    }
}

/// A comparison contract for sorting: a total preorder given by `le`,
/// executable through `leq`.
pub trait OrderFn<T> {
    /// The ordering relation: `a` may stand before `b`.
    spec fn le(&self, a: T, b: T) -> bool;

    /// The relation is total: any two values compare one way or the other.
    proof fn lemma_total(&self, a: T, b: T)
        ensures
            self.le(a, b) || self.le(b, a),
    ;

    /// The relation is transitive.
    proof fn lemma_trans(&self, a: T, b: T, c: T)
        requires
            self.le(a, b),
            self.le(b, c),
        ensures
            self.le(a, c),
    ;

    /// Decide the relation on two values.
    fn leq(&self, a: &T, b: &T) -> (r: bool)
        ensures
            r == self.le(*a, *b),
    ;
}

/// Generic draw queue: an object arena plus a separately ordered index list.
pub struct Queue<T> {
    /// Exposed objects list that can be extended directly with no harm;
    /// the index list catches up at the next reconciliation.
    pub objects: Vec<T>,
    indices: Vec<u32>,
}

impl<T> Queue<T> {
    /// The index list, as the mathematical order of the queue.
    pub closed spec fn ids(&self) -> Seq<u32> {
        self.indices@
    }

    /// The object arena, in insertion order.
    pub closed spec fn objs(&self) -> Seq<T> {
        self.objects@
    }

    /// The index list is a permutation of `0 .. ids().len()`.
    pub open spec fn wf(&self) -> bool {
        perm_of(self.ids(), self.ids().len() as int)
    }

    /// The index list and the object list agree in length.
    pub open spec fn ready(&self) -> bool {
        self.objs().len() == self.ids().len()
    }

    /// The objects in index order: what iteration and flushing see.
    pub open spec fn ordered_view(&self) -> Seq<T> {
        Seq::new(self.ids().len(), |j: int| self.objs()[self.ids()[j] as int])
    }

    /// Create an empty queue.
    pub fn new() -> (q: Queue<T>)
        ensures
            q.wf(),
            q.objs() == Seq::<T>::empty(),
            q.ids() == Seq::<u32>::empty(),
    {
        Queue { objects: Vec::new(), indices: Vec::new() }
    }

    /// Append an object to the arena; the index list is reconciled later.
    pub fn push(&mut self, object: T)
        ensures
            final(self).objs() == old(self).objs().push(object),
            final(self).ids() == old(self).ids(),
    {
        self.objects.push(object);
    }

    /// Empty the arena; stale indices are dropped at the next
    /// reconciliation.
    pub fn clear_objects(&mut self)
        ensures
            final(self).objs() == Seq::<T>::empty(),
            final(self).ids() == old(self).ids(),
    {
        self.objects.clear();
    }

    /// Number of objects in the arena.
    pub fn len(&self) -> (n: usize)
        ensures
            n == self.objs().len(),
    {
        self.objects.len()
    }

    /// Read the arena at a raw position, in insertion order.
    pub fn get(&self, j: usize) -> (o: &T)
        requires
            j < self.objs().len(),
        ensures
            *o == self.objs()[j as int],
    {
        &self.objects[j]
    }

    /// Read the queue at a position of the index order.
    pub fn get_order(&self, j: usize) -> (o: &T)
        requires
            self.wf(),
            self.ready(),
            j < self.ordered_view().len(),
        ensures
            *o == self.ordered_view()[j as int],
    {
        let id = self.indices[j];
        &self.objects[id as usize]
    }

    fn is_ready(&self) -> (r: bool)
        ensures
            r == self.ready(),
    {
        self.objects.len() == self.indices.len()
    }

    /// Synchronize the indices with the objects: append fresh indices for
    /// objects pushed since the last sync, in push order, or drop indices
    /// whose target no longer exists, keeping the rest in their order.
    pub fn update(&mut self)
        requires
            old(self).wf(),
            old(self).objs().len() <= u32::MAX,
        ensures
            final(self).wf(),
            final(self).ready(),
            final(self).objs() == old(self).objs(),
            old(self).ids().len() <= old(self).objs().len() ==> final(self).ids() == old(
                self,
            ).ids() + Seq::new(
                (old(self).objs().len() - old(self).ids().len()) as nat,
                |k: int| (old(self).ids().len() + k) as u32,
            ),
            old(self).ids().len() > old(self).objs().len() ==> final(self).ids() == old(
                self,
            ).ids().filter(|x: u32| (x as int) < old(self).objs().len()),
    {
        let ni = self.indices.len();
        let no = self.objects.len();
        if no > ni {
            let ghost old_ids = self.indices@;
            let mut i = ni;
            while i < no
                invariant
                    ni <= i <= no,
                    no <= u32::MAX,
                    no == self.objects@.len(),
                    self.objects@ == old(self).objects@,
                    ni == old_ids.len(),
                    perm_of(old_ids, ni as int),
                    self.indices@ == old_ids + Seq::new(
                        (i - ni) as nat,
                        |k: int| (ni + k) as u32,
                    ),
                decreases no - i,
            {
                self.indices.push(i as u32);
                proof {
                    assert(self.indices@ =~= old_ids + Seq::new(
                        (i + 1 - ni) as nat,
                        |k: int| (ni + k) as u32,
                    ));
                }
                i = i + 1;
            }
            proof {
                lemma_grown_perm(old_ids, ni as int, no as int);
            }
        } else if no < ni {
            let ghost old_ids = self.indices@;
            let ghost pred = |x: u32| (x as int) < no as int;
            let mut kept: Vec<u32> = Vec::new();
            let mut j: usize = 0;
            while j < ni
                invariant
                    0 <= j <= ni,
                    no <= u32::MAX,
                    ni == old_ids.len(),
                    no == self.objects@.len(),
                    self.objects@ == old(self).objects@,
                    self.indices@ == old_ids,
                    perm_of(old_ids, ni as int),
                    pred == (|x: u32| (x as int) < no as int),
                    kept@ == old_ids.take(j as int).filter(pred),
                decreases ni - j,
            {
                let v = self.indices[j];
                if v < no as u32 {
                    kept.push(v);
                }
                proof {
                    reveal_with_fuel(Seq::filter, 2);
                    assert(old_ids.take(j + 1).drop_last() =~= old_ids.take(j as int));
                    assert(old_ids.take(j + 1).last() == old_ids[j as int]);
                    assert(kept@ =~= old_ids.take(j + 1).filter(pred));
                }
                j = j + 1;
            }
            proof {
                assert(old_ids.take(ni as int) =~= old_ids);
            }
            self.indices = kept;
            proof {
                lemma_kept_perm(old_ids, ni as int, no as int, self.indices@);
            }
        }
    }

    /// Reconcile, then sort the index list so that iteration respects the
    /// given comparison; the objects themselves never move.
    pub fn sort<F: OrderFn<T>>(&mut self, fun: &F)
        requires
            old(self).wf(),
            old(self).objs().len() <= u32::MAX,
        ensures
            final(self).wf(),
            final(self).ready(),
            final(self).objs() == old(self).objs(),
            forall|p: int, q: int| 0 <= p < q < final(self).ordered_view().len() ==> fun.le(
                #[trigger] final(self).ordered_view()[p],
                #[trigger] final(self).ordered_view()[q],
            ),
    {
        self.update();
        Self::sort_indices(&self.objects, &mut self.indices, fun);
    }

    fn sort_indices<F: OrderFn<T>>(objects: &Vec<T>, indices: &mut Vec<u32>, fun: &F)
        requires
            perm_of(old(indices)@, old(indices)@.len() as int),
            old(indices)@.len() == objects@.len(),
        ensures
            perm_of(final(indices)@, final(indices)@.len() as int),
            final(indices)@.len() == old(indices)@.len(),
            forall|p: int, q: int| 0 <= p < q < final(indices)@.len() ==> fun.le(
                #[trigger] objects@[final(indices)@[p] as int],
                #[trigger] objects@[final(indices)@[q] as int],
            ),
    {
        let n = indices.len();
        let mut i: usize = 1;
        while i < n
            invariant
                1 <= i <= n || (n == 0 && i == 1),
                n == indices@.len(),
                n == objects@.len(),
                perm_of(indices@, n as int),
                forall|p: int, q: int| 0 <= p < q < i ==> fun.le(
                    #[trigger] objects@[indices@[p] as int],
                    #[trigger] objects@[indices@[q] as int],
                ),
            decreases n - i,
        {
            let mut j = i;
            while j > 0
                invariant
                    0 <= j <= i < n,
                    n == indices@.len(),
                    n == objects@.len(),
                    perm_of(indices@, n as int),
                    forall|p: int, q: int| 0 <= p < q <= i as int && q != j ==> fun.le(
                        #[trigger] objects@[indices@[p] as int],
                        #[trigger] objects@[indices@[q] as int],
                    ),
                    forall|q: int| (j as int) < q <= i as int ==> fun.le(
                        objects@[indices@[j as int] as int],
                        #[trigger] objects@[indices@[q] as int],
                    ),
                ensures
                    n == indices@.len(),
                    perm_of(indices@, n as int),
                    forall|p: int, q: int| 0 <= p < q <= i as int ==> fun.le(
                        #[trigger] objects@[indices@[p] as int],
                        #[trigger] objects@[indices@[q] as int],
                    ),
                decreases j,
            {
                let ghost pre = indices@;
                let a = indices[j - 1];
                let b = indices[j];
                if fun.leq(&objects[a as usize], &objects[b as usize]) {
                    proof {
                        assert forall|p: int, q: int| 0 <= p < q <= i as int implies fun.le(
                            objects@[indices@[p] as int],
                            objects@[indices@[q] as int],
                        ) by {
                            if q == j && p < j - 1 {
                                fun.lemma_trans(
                                    objects@[indices@[p] as int],
                                    objects@[indices@[j - 1] as int],
                                    objects@[indices@[j as int] as int],
                                );
                            }
                        }
                    }
                    break;
                }
                proof {
                    fun.lemma_total(objects@[a as int], objects@[b as int]);
                }
                indices.set(j - 1, b);
                indices.set(j, a);
                proof {
                    lemma_swap_adjacent_perm(pre, indices@, j as int, n as int);
                    let post = indices@;
                    assert forall|p: int, q: int|
                        0 <= p < q <= i as int && q != j - 1 implies fun.le(
                        objects@[post[p] as int],
                        objects@[post[q] as int],
                    ) by {
                        if p == j - 1 {
                            // post[p] is the old position-j value, known le
                            // against everything after j
                            assert(post[p] == pre[j as int]);
                            if q == j {
                                assert(post[q] == pre[j - 1]);
                            } else {
                                assert(post[q] == pre[q]);
                            }
                        } else if p == j {
                            assert(post[p] == pre[j - 1]);
                            assert(post[q] == pre[q]);
                        } else if q == j {
                            assert(post[q] == pre[j - 1]);
                            assert(post[p] == pre[p]);
                        } else {
                            assert(post[p] == pre[p]);
                            assert(post[q] == pre[q]);
                        }
                    }
                    assert forall|q: int| (j - 1) < q <= i as int implies fun.le(
                        objects@[indices@[j - 1] as int],
                        #[trigger] objects@[indices@[q] as int],
                    ) by {
                        let post = indices@;
                        assert(post[j - 1] == pre[j as int]);
                        if q == j {
                            assert(post[q] == pre[j - 1]);
                        } else {
                            assert(post[q] == pre[q]);
                            fun.lemma_trans(
                                objects@[pre[j as int] as int],
                                objects@[pre[j - 1] as int],
                                objects@[pre[q] as int],
                            );
                        }
                    }
                }
                j = j - 1;
            }
            i = i + 1;
        }
    }

    /// Iterate over the objects in index order.
    pub fn iter<'a>(&'a self) -> (it: QueueIter<'a, T>)
        requires
            self.wf(),
            self.ready(),
        ensures
            it.wf(),
            it.seq() == self.ordered_view(),
            it.position() == 0,
    {
        QueueIter { objects: &self.objects, id_iter: &self.indices, pos: 0 }
    }
}

/// Iterator over queue objects, in index order.
pub struct QueueIter<'a, T> {
    objects: &'a Vec<T>,
    id_iter: &'a Vec<u32>,
    pos: usize,
}

impl<'a, T> QueueIter<'a, T> {
    /// The iterator's index list is a permutation and matches the objects.
    pub closed spec fn wf(&self) -> bool {
        &&& perm_of(self.id_iter@, self.id_iter@.len() as int)
        &&& self.objects@.len() == self.id_iter@.len()
        &&& self.pos <= self.id_iter@.len()
    }

    /// The full ordered sequence this iterator walks.
    pub closed spec fn seq(&self) -> Seq<T> {
        Seq::new(self.id_iter@.len(), |j: int| self.objects@[self.id_iter@[j] as int])
    }

    /// How many objects were already yielded.
    pub closed spec fn position(&self) -> int {
        self.pos as int
    }

    /// Yield the next object in order, or nothing once every object was
    /// yielded.
    pub fn next(&mut self) -> (r: Option<&'a T>)
        requires
            old(self).wf(),
        ensures
            final(self).wf(),
            final(self).seq() == old(self).seq(),
            match r {
                Some(o) => old(self).position() < old(self).seq().len() && final(self).position()
                    == old(self).position() + 1 && *o == old(self).seq()[old(self).position()],
                None => old(self).position() == old(self).seq().len() && final(self).position()
                    == old(self).position(),
            },
    {
        if self.pos < self.id_iter.len() {
            let id = self.id_iter[self.pos];
            self.pos = self.pos + 1;
            Some(&self.objects[id as usize])
        } else {
            None
        }
    }
}

/// A reconciled queue iterates over exactly the current object set: every
/// position of the arena appears at exactly one place of the order, and the
/// ordered view reads the arena there.
pub proof fn lemma_iter_yields_each_exactly_once<T>(q: Queue<T>)
    requires
        q.wf(),
        q.ready(),
    ensures
        q.ordered_view().len() == q.objs().len(),
        forall|j: int| 0 <= j < q.ordered_view().len() ==> q.ordered_view()[j] == q.objs()[
            #[trigger] q.ids()[j] as int
        ],
        forall|i: int| 0 <= i < q.objs().len() ==> #[trigger] has_value(q.ids(), i),
        forall|j: int, k: int| 0 <= j < k < q.ids().len() ==> q.ids()[j] != q.ids()[k],
{
    lemma_perm_surjective(q.ids(), q.ids().len() as int);
}

proof fn lemma_grown_perm(old_ids: Seq<u32>, ni: int, no: int)
    requires
        0 <= ni <= no <= u32::MAX,
        perm_of(old_ids, ni),
    ensures
        perm_of(old_ids + Seq::new((no - ni) as nat, |k: int| (ni + k) as u32), no),
{
    let ext = old_ids + Seq::new((no - ni) as nat, |k: int| (ni + k) as u32);
    assert forall|j: int, k: int| 0 <= j < k < ext.len() implies ext[j] != ext[k] by {
        if j < ni && k >= ni {
            assert(ext[j] < ni);
            assert(ext[k] >= ni);
        }
    }
}

proof fn lemma_kept_perm(old_ids: Seq<u32>, ni: int, no: int, kept: Seq<u32>)
    requires
        0 <= no < ni,
        perm_of(old_ids, ni),
        kept == old_ids.filter(|x: u32| (x as int) < no),
    ensures
        perm_of(kept, no),
{
    let pred = |x: u32| (x as int) < no;
    broadcast use vstd::seq_lib::group_filter_ensures;

    // every kept entry is below `no`
    assert(forall|j: int| 0 <= j < kept.len() ==> (#[trigger] kept[j]) < no);
    // kept entries stay distinct: filtering a distinct sequence
    lemma_filter_distinct(old_ids, pred);
    // every value below `no` stood in old_ids, hence survives the filter
    lemma_perm_surjective(old_ids, ni);
    assert forall|v: int| 0 <= v < no implies #[trigger] has_value(kept, v) by {
        assert(has_value(old_ids, v));
        let j = choose|j: int| 0 <= j < old_ids.len() && old_ids[j] == v;
        assert(pred(old_ids[j]));
        assert(kept.contains(old_ids[j]));
        let k = choose|k: int| 0 <= k < kept.len() && kept[k] == old_ids[j];
        assert(0 <= k < kept.len() && kept[k] == v);
    }
    lemma_distinct_bounded_complete(kept, no);
}

proof fn lemma_filter_distinct(s: Seq<u32>, pred: spec_fn(u32) -> bool)
    requires
        forall|j: int, k: int| 0 <= j < k < s.len() ==> s[j] != s[k],
    ensures
        forall|j: int, k: int| 0 <= j < k < s.filter(pred).len() ==> s.filter(pred)[j] != s.filter(
            pred,
        )[k],
    decreases s.len(),
{
    reveal_with_fuel(Seq::filter, 2);
    if s.len() > 0 {
        let rest = s.drop_last();
        lemma_filter_distinct(rest, pred);
        broadcast use vstd::seq_lib::group_filter_ensures;

        let f = s.filter(pred);
        let fr = rest.filter(pred);
        if pred(s.last()) {
            assert(f == fr.push(s.last()));
            assert forall|j: int, k: int| 0 <= j < k < f.len() implies f[j] != f[k] by {
                if k == f.len() - 1 {
                    // the pushed element was never in the rest
                    assert(f[j] == fr[j]);
                    lemma_filter_element_of(rest, pred, j);
                }
            }
        }
    }
}

proof fn lemma_filter_element_of(s: Seq<u32>, pred: spec_fn(u32) -> bool, j: int)
    requires
        0 <= j < s.filter(pred).len(),
    ensures
        exists|k: int| 0 <= k < s.len() && s[k] == s.filter(pred)[j],
    decreases s.len(),
{
    reveal_with_fuel(Seq::filter, 2);
    broadcast use vstd::seq_lib::group_filter_ensures;

    if s.len() > 0 {
        let rest = s.drop_last();
        let f = s.filter(pred);
        let fr = rest.filter(pred);
        if pred(s.last()) && j == f.len() - 1 {
            assert(s[s.len() - 1] == f[j]);
        } else {
            assert(f[j] == fr[j]);
            lemma_filter_element_of(rest, pred, j);
            let k = choose|k: int| 0 <= k < rest.len() && rest[k] == fr[j];
            assert(s[k] == f[j]);
        }
    }
}

proof fn lemma_swap_adjacent_perm(pre: Seq<u32>, post: Seq<u32>, j: int, n: int)
    requires
        perm_of(pre, n),
        1 <= j < pre.len(),
        post == pre.update(j - 1, pre[j]).update(j, pre[j - 1]),
    ensures
        perm_of(post, n),
{
    assert forall|p: int, q: int| 0 <= p < q < post.len() implies post[p] != post[q] by {
        let vp = if p == j - 1 {
            pre[j]
        } else if p == j {
            pre[j - 1]
        } else {
            pre[p]
        };
        assert(post[p] == vp);
    }
}

} // verus!
