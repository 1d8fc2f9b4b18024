//! Phase memory: a mapping from cache keys to the remembered outcome of
//! batch construction. A remembered failure is returned as-is on the next
//! lookup, so failing work is never repeated; the unit memory remembers
//! nothing and turns caching off.

use vstd::prelude::*;
use crate::types::BatchError;

verus! {

/// A key with decidable equality, usable for cache lookups.
pub trait Fingerprint: Sized {
    /// Decide equality of two keys.
    fn same(&self, other: &Self) -> (r: bool)
        ensures
            r == (*self == *other),
    ;
}

impl Fingerprint for u64 {
    fn same(&self, other: &Self) -> (r: bool) {
        *self == *other
    }
}

impl<A: Fingerprint, B: Fingerprint> Fingerprint for (A, B) {
    fn same(&self, other: &Self) -> (r: bool) {
        self.0.same(&other.0) && self.1.same(&other.1)
    }
}

/// Result of memory lookups. A batch construction error is remembered too,
/// so that the failing construction is not repeated on the next attempt.
pub type MemResult<S> = Result<S, BatchError>;

/// A generic phase memory.
pub trait Memory<T, S> {
    /// The remembered outcomes, as a map.
    spec fn contents(&self) -> Map<T, MemResult<S>>;

    /// Whether this memory remembers anything at all.
    spec fn caching() -> bool;

    /// Try looking up a key in the memory.
    fn lookup(&self, input: &T) -> (r: Option<&MemResult<S>>)
        ensures
            match r {
                Some(res) => self.contents().contains_key(*input) && *res == self.contents()[
                    *input
                ],
                None => !self.contents().contains_key(*input),
            },
    ;

    /// Store an outcome, overwriting any prior entry for the key.
    fn store(&mut self, input: T, out: MemResult<S>)
        ensures
            final(self).contents() == if Self::caching() {
                old(self).contents().insert(input, out)
            } else {
                old(self).contents()
            },
    ;
}

/// The no-op memory: looking up always misses and storing forgets, so a
/// phase backed by it compiles every enqueue afresh.
impl<T, S> Memory<T, S> for () {
    open spec fn contents(&self) -> Map<T, MemResult<S>> {
        Map::empty()
    }

    open spec fn caching() -> bool {
        false
    }

    fn lookup(&self, input: &T) -> (r: Option<&MemResult<S>>) {
        None
    }

    fn store(&mut self, input: T, out: MemResult<S>) {
    }
}

/// A remembering phase memory, keyed by fingerprints.
pub struct CacheMap<T, S> {
    entries: Vec<(T, MemResult<S>)>,
}

/// The map described by an association list, later entries overriding
/// earlier ones.
spec fn entries_map<T, S>(s: Seq<(T, MemResult<S>)>) -> Map<T, MemResult<S>>
    decreases s.len(),
{
    if s.len() == 0 {
        Map::empty()
    } else {
        entries_map(s.drop_last()).insert(s.last().0, s.last().1)
    }
}

proof fn lemma_entries_map_props<T, S>(s: Seq<(T, MemResult<S>)>)
    ensures
        forall|k: T| #[trigger] entries_map(s).contains_key(k) <==> exists|i: int|
            0 <= i < s.len() && (#[trigger] s[i]).0 == k,
        forall|i: int|
            0 <= i < s.len() && (forall|j: int| i < j < s.len() ==> (#[trigger] s[j]).0 != s[i].0)
                ==> entries_map(s)[(#[trigger] s[i]).0] == s[i].1,
    decreases s.len(),
{
    if s.len() > 0 {
        lemma_entries_map_props(s.drop_last());
        assert(entries_map(s) == entries_map(s.drop_last()).insert(s.last().0, s.last().1));
        assert forall|k: T| #[trigger] entries_map(s).contains_key(k) implies exists|i: int|
            0 <= i < s.len() && (#[trigger] s[i]).0 == k by {
            if k == s.last().0 {
                assert(s[s.len() - 1].0 == k);
            } else {
                assert(entries_map(s.drop_last()).contains_key(k));
                let i = choose|i: int|
                    0 <= i < s.drop_last().len() && (#[trigger] s.drop_last()[i]).0 == k;
                assert(s[i].0 == k);
            }
        }
        assert forall|k: T| (exists|i: int| 0 <= i < s.len() && (#[trigger] s[i]).0 == k)
            implies entries_map(s).contains_key(k) by {
            let i = choose|i: int| 0 <= i < s.len() && (#[trigger] s[i]).0 == k;
            if i < s.len() - 1 {
                assert(s.drop_last()[i].0 == k);
                assert(entries_map(s.drop_last()).contains_key(k));
            }
        }
        assert forall|i: int|
            0 <= i < s.len() && (forall|j: int| i < j < s.len() ==> (#[trigger] s[j]).0 != s[i].0)
                implies entries_map(s)[(#[trigger] s[i]).0] == s[i].1 by {
            if i == s.len() - 1 {
            } else {
                assert(s.drop_last()[i] == s[i]);
                assert(forall|j: int| i < j < s.drop_last().len() ==> (#[trigger] s.drop_last()[j]).0
                    != s.drop_last()[i].0) by {
                    assert(forall|j: int| i < j < s.len() - 1 ==> s.drop_last()[j] == s[j]);
                }
                assert(s[s.len() - 1].0 != s[i].0);
            }
        }
    }
}

impl<T, S> CacheMap<T, S> {
    #[verifier::type_invariant]
    spec fn inv(self) -> bool {
        forall|i: int, j: int| 0 <= i < j < self.entries@.len() ==> (#[trigger] self.entries@[i]).0
            != (#[trigger] self.entries@[j]).0
    }
}

impl<T: Fingerprint, S> CacheMap<T, S> {
    /// Create an empty memory.
    pub fn new() -> (r: CacheMap<T, S>)
        ensures
            r.contents() == Map::<T, MemResult<S>>::empty(),
    {
        CacheMap { entries: Vec::new() }
    }
}

impl<T: Fingerprint, S> Memory<T, S> for CacheMap<T, S> {
    closed spec fn contents(&self) -> Map<T, MemResult<S>> {
        entries_map(self.entries@)
    }

    open spec fn caching() -> bool {
        true
    }

    fn lookup(&self, input: &T) -> (r: Option<&MemResult<S>>) {
        proof {
            use_type_invariant(self);
            lemma_entries_map_props(self.entries@);
        }
        let n = self.entries.len();
        for i in 0..n
            invariant
                n == self.entries@.len(),
                forall|k: int| 0 <= k < i ==> (#[trigger] self.entries@[k]).0 != *input,
                self.inv(),
                forall|kk: T| #[trigger] entries_map(self.entries@).contains_key(kk) <==> exists|
                    ii: int,
                |
                    0 <= ii < self.entries@.len() && (#[trigger] self.entries@[ii]).0 == kk,
                forall|ii: int|
                    0 <= ii < self.entries@.len() && (forall|jj: int|
                        ii < jj < self.entries@.len() ==> (#[trigger] self.entries@[jj]).0
                            != self.entries@[ii].0) ==> entries_map(self.entries@)[(
                    #[trigger] self.entries@[ii]).0] == self.entries@[ii].1,
        {
            let e = &self.entries[i];
            if e.0.same(input) {
                proof {
                    assert(forall|jj: int|
                        i < jj < self.entries@.len() ==> (#[trigger] self.entries@[jj]).0
                            != self.entries@[i as int].0);
                }
                return Some(&e.1);
            }
        }
        proof {
            assert(!entries_map(self.entries@).contains_key(*input));
        }
        None
    }

    fn store(&mut self, input: T, out: MemResult<S>) {
        proof {
            use_type_invariant(&*self);
        }
        let ghost pre = self.entries@;
        // the entries are swapped out, edited, and swapped back: the type
        // invariant admits only non-unwinding operations directly on the field
        let mut entries: Vec<(T, MemResult<S>)> = Vec::new();
        core::mem::swap(&mut self.entries, &mut entries);
        let n = entries.len();
        let mut idx: usize = 0;
        let mut found = false;
        while idx < n
            invariant
                n == entries@.len(),
                entries@ == pre,
                idx <= n,
                !found ==> forall|k: int| 0 <= k < idx ==> (#[trigger] pre[k]).0 != input,
                found ==> idx < n && pre[idx as int].0 == input,
            ensures
                n == entries@.len(),
                entries@ == pre,
                !found ==> forall|k: int| 0 <= k < n ==> (#[trigger] pre[k]).0 != input,
                found ==> idx < n && pre[idx as int].0 == input,
            decreases n - idx,
        {
            let hit = entries[idx].0.same(&input);
            if hit {
                found = true;
                break;
            }
            idx = idx + 1;
        }
        if found {
            entries[idx] = (input, out);
            proof {
                lemma_entries_map_update(pre, idx as int, input, out);
            }
        } else {
            entries.push((input, out));
            proof {
                assert(entries@.drop_last() =~= pre);
                assert(entries_map(entries@) == entries_map(pre).insert(input, out));
                assert forall|p: int, q: int| 0 <= p < q < entries@.len() implies (
                #[trigger] entries@[p]).0 != (#[trigger] entries@[q]).0 by {
                    if q == entries@.len() - 1 {
                        assert(entries@[p] == pre[p]);
                    }
                }
            }
        }
        core::mem::swap(&mut self.entries, &mut entries);
    }
}

/// Updating the entry that holds a key is, at the map level, inserting
/// under that key.
proof fn lemma_entries_map_update<T, S>(s: Seq<(T, MemResult<S>)>, i: int, k: T, v: MemResult<S>)
    requires
        0 <= i < s.len(),
        s[i].0 == k,
        forall|p: int, q: int| 0 <= p < q < s.len() ==> (#[trigger] s[p]).0 != (#[trigger] s[q]).0,
    ensures
        entries_map(s.update(i, (k, v))) == entries_map(s).insert(k, v),
        forall|p: int, q: int| 0 <= p < q < s.len() ==> (#[trigger] s.update(i, (k, v))[p]).0 != (
        #[trigger] s.update(i, (k, v))[q]).0,
    decreases s.len(),
{
    let s2 = s.update(i, (k, v));
    assert forall|p: int, q: int| 0 <= p < q < s.len() implies (#[trigger] s2[p]).0 != (
    #[trigger] s2[q]).0 by {
        if p != i && q != i {
            assert(s2[p] == s[p] && s2[q] == s[q]);
        }
    }
    if i == s.len() - 1 {
        assert(s2.drop_last() =~= s.drop_last());
        assert(entries_map(s2) == entries_map(s.drop_last()).insert(k, v));
        assert(entries_map(s) == entries_map(s.drop_last()).insert(k, s[i].1));
        assert(entries_map(s.drop_last()).insert(k, s[i].1).insert(k, v) =~= entries_map(
            s.drop_last(),
        ).insert(k, v));
    } else {
        assert(s2.drop_last() =~= s.drop_last().update(i, (k, v)));
        assert(s.drop_last()[i] == s[i]);
        lemma_entries_map_update(s.drop_last(), i, k, v);
        let last = s.last();
        assert(s2.last() == last);
        assert(entries_map(s2) == entries_map(s.drop_last()).insert(k, v).insert(last.0, last.1));
        assert(last.0 != k);
        assert(entries_map(s.drop_last()).insert(k, v).insert(last.0, last.1) =~= entries_map(
            s.drop_last(),
        ).insert(last.0, last.1).insert(k, v));
    }
}

} // verus!
