//! A cache of descriptors: every distinct descriptor gets one handle, and a
//! descriptor that was seen before gets the handle it got then.

use vstd::prelude::*;

verus! {

/// A value that a pool can hold: its view is what the pool compares.
pub trait Descriptor: View + Sized {
    /// Whether `self` and `other` describe the same resource.
    fn same(&self, other: &Self) -> (b: bool)
        ensures
            b == (self@ == other@),
    ;

    /// A copy of `self`.
    fn duplicate(&self) -> (out: Self)
        ensures
            out@ == self@,
    ;
}

/// No entry of `entries` occurs twice.
pub open spec fn distinct<K>(entries: Seq<K>) -> bool {
    forall|i: int, j: int| 0 <= i < j < entries.len() ==> entries[i] != entries[j]
}

/// What `get_or_create` does: a pool holding `pre` that is asked for `key`
/// holds `post` afterwards and answers with `handle`. A key that the pool
/// holds keeps its place and the pool stays as it is; a new key is put at the
/// end.
pub open spec fn looked_up<K>(pre: Seq<K>, key: K, post: Seq<K>, handle: int) -> bool {
    &&& 0 <= handle < post.len()
    &&& post[handle] == key
    &&& if pre.contains(key) {
        post == pre
    } else {
        post == pre.push(key) && handle == pre.len()
    }
}

/// The entries of a pool that held `pre` after it has been asked for `key`:
/// what it held, with `key` at the end where the pool did not hold it.
pub open spec fn with_key<K>(pre: Seq<K>, key: K) -> Seq<K> {
    if pre.contains(key) {
        pre
    } else {
        pre.push(key)
    }
}

/// Asking a pool twice for the same descriptor gives the same handle, and the
/// second request leaves the pool as the first one left it.
pub proof fn lemma_get_or_create_idempotent<K>(
    pool0: Seq<K>,
    key: K,
    pool1: Seq<K>,
    first: int,
    pool2: Seq<K>,
    second: int,
)
    requires
        distinct(pool0),
        looked_up(pool0, key, pool1, first),
        looked_up(pool1, key, pool2, second),
    ensures
        first == second,
        pool2 == pool1,
        distinct(pool1),
{
    lemma_looked_up_distinct(pool0, key, pool1, first);
    assert(pool1.contains(key));
}

/// A request keeps the entries of a pool distinct and keeps every handle
/// that was given out before it.
pub proof fn lemma_looked_up_distinct<K>(pre: Seq<K>, key: K, post: Seq<K>, handle: int)
    requires
        distinct(pre),
        looked_up(pre, key, post, handle),
    ensures
        distinct(post),
        pre.len() <= post.len(),
        forall|i: int| 0 <= i < pre.len() ==> post[i] == pre[i],
{
    if !pre.contains(key) {
        assert forall|i: int, j: int| 0 <= i < j < post.len() implies post[i] != post[j] by {
            if j == pre.len() {
                if post[i] == key {
                    assert(pre[i] == key);
                    assert(pre.contains(key));
                }
            }
        }
    }
}

/// A pool of descriptors. A handle is the place of a descriptor in the pool;
/// it stays valid for as long as the pool lives.
pub struct StaticResourcePool<D: Descriptor> {
    descriptors: Vec<D>,
}

impl<D: Descriptor> View for StaticResourcePool<D> {
    type V = Seq<D::V>;

    closed spec fn view(&self) -> Seq<D::V> {
        Seq::new(self.descriptors@.len(), |i: int| self.descriptors@[i]@)
    }
}

impl<D: Descriptor> StaticResourcePool<D> {
    /// No two handles of the pool stand for the same descriptor.
    pub open spec fn wf(&self) -> bool {
        distinct(self@)
    }

    /// An empty pool.
    pub fn new() -> (out: Self)
        ensures
            out@ == Seq::<D::V>::empty(),
            out.wf(),
    {
        let out = StaticResourcePool { descriptors: Vec::new() };
        assert(out@ =~= Seq::<D::V>::empty());
        out
    }

    /// The number of descriptors in the pool.
    pub fn len(&self) -> (n: usize)
        ensures
            n == self@.len(),
    {
        self.descriptors.len()
    }

    /// The descriptor behind a handle.
    pub fn get(&self, handle: usize) -> (out: Option<&D>)
        ensures
            match out {
                Some(d) => handle < self@.len() && d@ == self@[handle as int],
                None => handle >= self@.len(),
            },
    {
        if handle < self.descriptors.len() {
            Some(&self.descriptors[handle])
        } else {
            None
        }
    }

    /// The handle of `desc` where the pool holds it.
    pub fn find(&self, desc: &D) -> (out: Option<usize>)
        ensures
            match out {
                Some(h) => h < self@.len() && self@[h as int] == desc@,
                None => !self@.contains(desc@),
            },
    {
        let n = self.descriptors.len();
        let mut i: usize = 0;
        while i < n
            invariant
                i <= n,
                n == self.descriptors@.len(),
                forall|k: int| 0 <= k < i ==> self@[k] != desc@,
            decreases n - i,
        {
            if self.descriptors[i].same(desc) {
                return Some(i);
            }
            i += 1;
        }
        None
    }

    /// The handle of `desc`: the one it has in the pool, or a new one, with
    /// which a copy of `desc` is then stored.
    pub fn get_or_create(&mut self, desc: &D) -> (handle: usize)
        requires
            old(self).wf(),
        ensures
            looked_up(old(self)@, desc@, final(self)@, handle as int),
            final(self).wf(),
    {
        match self.find(desc) {
            Some(h) => h,
            None => {
                let h = self.descriptors.len();
                let ghost pre = self@;
                let copy = desc.duplicate();
                self.descriptors.push(copy);
                proof {
                    assert(self@ =~= pre.push(desc@));
                    lemma_looked_up_distinct(pre, desc@, self@, h as int);
                }
                h
            },
        }
    }
}

} // verus!
