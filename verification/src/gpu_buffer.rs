//! Device memory for tensors: a pool of buffers, and the buffer of one tensor.
//!
//! The pool decides which buffers exist and which of them are taken; whoever
//! drives the device creates the buffer of every entry that the pool holds.

use vstd::prelude::*;

verus! {

/// The size of every pooled buffer is a multiple of this many bytes.
pub const BUFFER_SIZE_ALIGN: usize = 4;

/// What a buffer is used for.
#[derive(Clone, Copy, Debug, PartialEq, Eq, Structural, Hash)]
pub enum BufferUsage {
    /// The elements of a tensor: bound as storage, copied from and to.
    Storage,
    /// The parameter records of a batch of dispatches.
    Uniform,
    /// The target of a copy from the device, mapped for reading.
    Readback,
}

/// What a pooled buffer is: its size in bytes and its usage.
#[derive(Clone, Copy, Debug, PartialEq, Eq, Structural, Hash)]
pub struct BufferDescriptor {
    pub size: usize,
    pub usage: BufferUsage,
}

/// The size of the pooled buffer that holds `n_bytes` bytes: `n_bytes`
/// rounded up to the next multiple of `BUFFER_SIZE_ALIGN`, and at least one
/// such multiple.
pub open spec fn rounded_size(n_bytes: nat) -> nat {
    if n_bytes == 0 {
        BUFFER_SIZE_ALIGN as nat
    } else {
        crate::uniform::round_up(n_bytes, BUFFER_SIZE_ALIGN as nat)
    }
}

impl BufferDescriptor {
    /// The descriptor of the storage buffer for `n_bytes` bytes, or `None`
    /// where the rounded size exceeds a machine word.
    pub fn storage(n_bytes: usize) -> (out: Option<BufferDescriptor>)
        ensures
            match out {
                Some(desc) => desc.size == rounded_size(n_bytes as nat) && desc.usage
                    == BufferUsage::Storage,
                None => rounded_size(n_bytes as nat) > usize::MAX,
            },
    {
        if n_bytes == 0 {
            return Some(BufferDescriptor { size: BUFFER_SIZE_ALIGN, usage: BufferUsage::Storage });
        }
        let rem = n_bytes % BUFFER_SIZE_ALIGN;
        if rem == 0 {
            Some(BufferDescriptor { size: n_bytes, usage: BufferUsage::Storage })
        } else if n_bytes > usize::MAX - (BUFFER_SIZE_ALIGN - rem) {
            None
        } else {
            Some(
                BufferDescriptor {
                    size: n_bytes + (BUFFER_SIZE_ALIGN - rem),
                    usage: BufferUsage::Storage,
                },
            )
        }
    }
}

/// The handle of a buffer in its pool.
#[derive(Clone, Copy, Debug, PartialEq, Eq, Structural, Hash)]
pub struct BufferHandle {
    pub index: usize,
}

/// One buffer of the pool: what it is, whether it is taken, whether the
/// device holds it, and when it was last given back.
#[derive(Clone, Copy, Debug, PartialEq, Eq, Structural)]
pub struct PoolEntry {
    pub desc: BufferDescriptor,
    pub in_use: bool,
    pub resident: bool,
    pub freed_at: u64,
}

impl PoolEntry {
    /// Whether the buffer is held by the device without being taken.
    pub open spec fn idle(self) -> bool {
        !self.in_use && self.resident
    }
}

/// What `allocate` does: a pool holding `pre` that is asked for `desc` holds
/// `post` afterwards and answers with `handle`. The first buffer with that
/// descriptor that is not taken is taken; where there is none, a new buffer
/// is put at the end. The buffer is held by the device afterwards, and the
/// time at which it was last given back stays, or is 0 for a new buffer. No
/// other entry changes.
pub open spec fn allocated(
    pre: Seq<PoolEntry>,
    desc: BufferDescriptor,
    post: Seq<PoolEntry>,
    handle: int,
) -> bool {
    &&& 0 <= handle <= pre.len()
    &&& post.len() == if handle < pre.len() {
        pre.len()
    } else {
        pre.len() + 1
    }
    &&& forall|i: int| 0 <= i < pre.len() && i != handle ==> #[trigger] post[i] == pre[i]
    &&& post[handle].desc == desc
    &&& post[handle].in_use
    &&& post[handle].resident
    &&& post[handle].freed_at == if handle < pre.len() {
        pre[handle].freed_at
    } else {
        0
    }
    &&& handle < pre.len() ==> !pre[handle].in_use && pre[handle].desc == desc
    &&& forall|k: int| 0 <= k < handle ==> (#[trigger] pre[k]).in_use || pre[k].desc != desc
}

/// What `release` does: the buffer behind `handle` is no longer taken, and
/// the time at which it was given back is the time `now` of the pool. The
/// device still holds the buffer. No other entry changes.
pub open spec fn released(pre: Seq<PoolEntry>, handle: int, now: u64, post: Seq<PoolEntry>) -> bool {
    &&& 0 <= handle < pre.len()
    &&& post == pre.update(
        handle,
        (PoolEntry {
            desc: pre[handle].desc,
            in_use: false,
            resident: pre[handle].resident,
            freed_at: now,
        }),
    )
}

/// The time of a pool after one more buffer has been given back at the time
/// `now`: the next one, where there is one.
pub open spec fn later(now: u64) -> u64 {
    if now < u64::MAX {
        (now + 1) as u64
    } else {
        now
    }
}

/// The number of buffers among the first `n` of `pool` that the device
/// holds without their being taken.
pub open spec fn idle_count(pool: Seq<PoolEntry>, n: int) -> nat
    decreases n,
{
    if n <= 0 {
        0
    } else if pool[n - 1].idle() {
        idle_count(pool, n - 1) + 1
    } else {
        idle_count(pool, n - 1)
    }
}

/// What `trim` does to a pool with the soft cap `cap`: idle buffers are let
/// go until no more than `cap` are left, the ones that were given back
/// longest ago first. No buffer that is taken changes, and no descriptor.
pub open spec fn trimmed(pre: Seq<PoolEntry>, cap: nat, post: Seq<PoolEntry>) -> bool {
    &&& post.len() == pre.len()
    &&& forall|i: int|
        0 <= i < pre.len() ==> (#[trigger] post[i]).desc == pre[i].desc && post[i].in_use
            == pre[i].in_use && post[i].freed_at == pre[i].freed_at && (post[i].resident
            ==> pre[i].resident) && (pre[i].in_use ==> post[i] == pre[i])
    &&& idle_count(post, post.len() as int) == if idle_count(pre, pre.len() as int) <= cap {
        idle_count(pre, pre.len() as int)
    } else {
        cap
    }
    &&& idle_count(pre, pre.len() as int) <= cap ==> post == pre
    &&& forall|i: int, j: int|
        0 <= i < pre.len() && 0 <= j < pre.len() && pre[i].idle() && pre[j].idle() && (
        #[trigger] post[i]).resident && !(#[trigger] post[j]).resident ==> pre[j].freed_at
            <= pre[i].freed_at
}

/// The count of idle buffers depends on the entries that are counted only.
pub proof fn lemma_idle_count_same(a: Seq<PoolEntry>, b: Seq<PoolEntry>, n: int)
    requires
        0 <= n <= a.len(),
        n <= b.len(),
        forall|i: int| 0 <= i < n ==> (#[trigger] a[i]).idle() == b[i].idle(),
    ensures
        idle_count(a, n) == idle_count(b, n),
    decreases n,
{
    if n > 0 {
        lemma_idle_count_same(a, b, n - 1);
    }
}

/// Changing one entry changes the count of idle buffers by that entry.
pub proof fn lemma_idle_count_update(pool: Seq<PoolEntry>, m: int, entry: PoolEntry, n: int)
    requires
        0 <= m < pool.len(),
        0 <= n <= pool.len(),
    ensures
        idle_count(pool.update(m, entry), n) + (if m < n && pool[m].idle() {
            1nat
        } else {
            0nat
        }) == idle_count(pool, n) + (if m < n && entry.idle() {
            1nat
        } else {
            0nat
        }),
    decreases n,
{
    if n > 0 {
        lemma_idle_count_update(pool, m, entry, n - 1);
    }
}

/// Where buffers are idle, one of them is.
pub proof fn lemma_idle_exists(pool: Seq<PoolEntry>, n: int)
    requires
        0 <= n <= pool.len(),
        idle_count(pool, n) > 0,
    ensures
        exists|i: int| 0 <= i < n && (#[trigger] pool[i]).idle(),
    decreases n,
{
    if n > 0 {
        if !pool[n - 1].idle() {
            lemma_idle_exists(pool, n - 1);
            let i = choose|i: int| 0 <= i < n - 1 && (#[trigger] pool[i]).idle();
            assert(pool[i].idle());
        }
    }
}

/// Taking a buffer leaves no more buffers idle than there were.
pub proof fn lemma_allocated_idle(
    pre: Seq<PoolEntry>,
    desc: BufferDescriptor,
    post: Seq<PoolEntry>,
    handle: int,
)
    requires
        allocated(pre, desc, post, handle),
    ensures
        idle_count(post, post.len() as int) <= idle_count(pre, pre.len() as int),
{
    if handle < pre.len() {
        assert(post =~= pre.update(handle, post[handle]));
        lemma_idle_count_update(pre, handle, post[handle], pre.len() as int);
    } else {
        lemma_idle_count_same(pre, post, pre.len() as int);
    }
}

/// The buffers of a device. A buffer that is given back stays in the pool
/// and is handed out again to the next request with its descriptor. The pool
/// keeps no more idle buffers than its soft cap allows: when it is trimmed,
/// it lets the ones go that were given back longest ago.
#[derive(Debug)]
pub struct BufferPool {
    entries: Vec<PoolEntry>,
    clock: u64,
    soft_cap: usize,
}

impl View for BufferPool {
    type V = Seq<PoolEntry>;

    closed spec fn view(&self) -> Seq<PoolEntry> {
        self.entries@
    }
}

impl Clone for BufferPool {
    fn clone(&self) -> (out: Self)
        ensures
            out@ == self@,
            out.spec_now() == self.spec_now(),
            out.spec_soft_cap() == self.spec_soft_cap(),
    {
        let mut entries: Vec<PoolEntry> = Vec::new();
        let mut i: usize = 0;
        while i < self.entries.len()
            invariant
                i <= self.entries.len(),
                entries@ == self.entries@.take(i as int),
            decreases self.entries.len() - i,
        {
            entries.push(self.entries[i]);
            i += 1;
            assert(entries@ =~= self.entries@.take(i as int));
        }
        assert(self.entries@.take(self.entries.len() as int) =~= self.entries@);
        BufferPool { entries, clock: self.clock, soft_cap: self.soft_cap }
    }
}

impl BufferPool {
    /// Whether `handle` stands for a buffer of the pool that is taken.
    pub open spec fn in_use(&self, handle: BufferHandle) -> bool {
        handle.index < self@.len() && self@[handle.index as int].in_use
    }

    /// The time of the pool: it starts at 0 and goes on by one with every
    /// buffer that is given back.
    pub closed spec fn spec_now(&self) -> u64 {
        self.clock
    }

    /// The largest number of idle buffers that the pool keeps when it is
    /// trimmed.
    pub closed spec fn spec_soft_cap(&self) -> usize {
        self.soft_cap
    }

    /// The pool keeps no more idle buffers than its soft cap allows.
    pub open spec fn within_cap(&self) -> bool {
        idle_count(self@, self@.len() as int) <= self.spec_soft_cap()
    }

    /// An empty pool without a limit on idle buffers.
    pub fn new() -> (out: Self)
        ensures
            out@ == Seq::<PoolEntry>::empty(),
            out.spec_soft_cap() == usize::MAX,
            out.spec_now() == 0,
            out.within_cap(),
    {
        BufferPool { entries: Vec::new(), clock: 0, soft_cap: usize::MAX }
    }

    /// The largest number of idle buffers that the pool keeps when it is
    /// trimmed.
    pub fn soft_cap(&self) -> (cap: usize)
        ensures
            cap == self.spec_soft_cap(),
    {
        self.soft_cap
    }

    /// The time of the pool: the time that the next buffer given back is
    /// marked with.
    pub fn now(&self) -> (now: u64)
        ensures
            now == self.spec_now(),
    {
        self.clock
    }

    /// Sets the soft cap and trims the pool to it.
    pub fn set_soft_cap(&mut self, cap: usize)
        ensures
            final(self).spec_soft_cap() == cap,
            final(self).spec_now() == old(self).spec_now(),
            trimmed(old(self)@, cap as nat, final(self)@),
            final(self).within_cap(),
    {
        self.soft_cap = cap;
        self.trim();
    }

    /// The number of buffers in the pool, taken or not.
    pub fn len(&self) -> (n: usize)
        ensures
            n == self@.len(),
    {
        self.entries.len()
    }

    /// The entry behind a handle.
    pub fn get(&self, handle: BufferHandle) -> (out: Option<PoolEntry>)
        ensures
            match out {
                Some(entry) => handle.index < self@.len() && entry == self@[handle.index as int],
                None => handle.index >= self@.len(),
            },
    {
        if handle.index < self.entries.len() {
            Some(self.entries[handle.index])
        } else {
            None
        }
    }

    /// The number of buffers that the device holds without their being
    /// taken.
    pub fn idle(&self) -> (n: usize)
        ensures
            n == idle_count(self@, self@.len() as int),
    {
        let len = self.entries.len();
        let mut n: usize = 0;
        let mut i: usize = 0;
        while i < len
            invariant
                i <= len,
                len == self.entries@.len(),
                n == idle_count(self.entries@, i as int),
                n <= i,
            decreases len - i,
        {
            let entry = self.entries[i];
            if !entry.in_use && entry.resident {
                n += 1;
            }
            i += 1;
        }
        n
    }

    /// Takes a buffer with the descriptor `desc`: the first one that the
    /// pool holds and that is not taken, or a new one.
    pub fn allocate(&mut self, desc: BufferDescriptor) -> (handle: BufferHandle)
        ensures
            allocated(old(self)@, desc, final(self)@, handle.index as int),
            final(self).in_use(handle),
            !old(self).in_use(handle),
            final(self).spec_now() == old(self).spec_now(),
            final(self).spec_soft_cap() == old(self).spec_soft_cap(),
            old(self).within_cap() ==> final(self).within_cap(),
    {
        let n = self.entries.len();
        let mut i: usize = 0;
        while i < n
            invariant
                i <= n,
                n == self.entries@.len(),
                self.entries@ == old(self).entries@,
                self.clock == old(self).clock,
                self.soft_cap == old(self).soft_cap,
                forall|k: int| 0 <= k < i ==> (#[trigger] self.entries@[k]).in_use
                    || self.entries@[k].desc != desc,
            decreases n - i,
        {
            let entry = self.entries[i];
            if !entry.in_use && entry.desc.size == desc.size && entry.desc.usage == desc.usage {
                self.entries.set(
                    i,
                    PoolEntry { desc, in_use: true, resident: true, freed_at: entry.freed_at },
                );
                proof {
                    lemma_allocated_idle(old(self)@, desc, self@, i as int);
                }
                return BufferHandle { index: i };
            }
            i += 1;
        }
        self.entries.push(PoolEntry { desc, in_use: true, resident: true, freed_at: 0 });
        proof {
            lemma_allocated_idle(old(self)@, desc, self@, n as int);
        }
        BufferHandle { index: n }
    }

    /// Gives the buffer behind `handle` back to the pool. The device goes
    /// on holding it until the pool is trimmed. The time of the pool goes on
    /// by one, unless it has reached the largest time there is.
    pub fn release(&mut self, handle: BufferHandle)
        requires
            handle.index < old(self)@.len(),
        ensures
            released(old(self)@, handle.index as int, old(self).spec_now(), final(self)@),
            final(self).spec_soft_cap() == old(self).spec_soft_cap(),
            final(self).spec_now() == later(old(self).spec_now()),
    {
        let entry = self.entries[handle.index];
        self.entries.set(
            handle.index,
            PoolEntry {
                desc: entry.desc,
                in_use: false,
                resident: entry.resident,
                freed_at: self.clock,
            },
        );
        if self.clock < u64::MAX {
            self.clock += 1;
        }
    }

    /// The idle buffer that was given back longest ago.
    fn oldest_idle(&self) -> (out: usize)
        requires
            idle_count(self@, self@.len() as int) > 0,
        ensures
            out < self@.len(),
            self@[out as int].idle(),
            forall|i: int|
                0 <= i < self@.len() && (#[trigger] self@[i]).idle() ==> self@[out as int].freed_at
                    <= self@[i].freed_at,
    {
        let len = self.entries.len();
        proof {
            lemma_idle_exists(self@, len as int);
        }
        let mut best: usize = len;
        let mut i: usize = 0;
        while i < len
            invariant
                i <= len,
                len == self.entries@.len(),
                best <= len,
                best < len ==> best < i && self.entries@[best as int].idle(),
                best == len ==> forall|k: int| 0 <= k < i ==> !(#[trigger] self.entries@[k]).idle(),
                best < len ==> forall|k: int|
                    0 <= k < i && (#[trigger] self.entries@[k]).idle()
                        ==> self.entries@[best as int].freed_at <= self.entries@[k].freed_at,
            decreases len - i,
        {
            let entry = self.entries[i];
            if !entry.in_use && entry.resident {
                if best == len || entry.freed_at < self.entries[best].freed_at {
                    best = i;
                }
            }
            i += 1;
        }
        best
    }

    /// Lets idle buffers go until no more than the soft cap are left, the
    /// ones that were given back longest ago first.
    #[verifier::rlimit(50)]
    pub fn trim(&mut self)
        ensures
            trimmed(old(self)@, old(self).spec_soft_cap() as nat, final(self)@),
            final(self).spec_soft_cap() == old(self).spec_soft_cap(),
            final(self).spec_now() == old(self).spec_now(),
            final(self).within_cap(),
    {
        let ghost pre = self.entries@;
        let cap = self.soft_cap;
        let mut idle = self.idle();
        while idle > cap
            invariant
                self.soft_cap == cap,
                self.clock == old(self).clock,
                idle == idle_count(self.entries@, self.entries@.len() as int),
                self.entries@.len() == pre.len(),
                idle_count(pre, pre.len() as int) > cap ==> idle >= cap,
                idle_count(pre, pre.len() as int) <= cap ==> self.entries@ == pre,
                forall|i: int|
                    0 <= i < pre.len() ==> (#[trigger] self.entries@[i]).desc == pre[i].desc
                        && self.entries@[i].in_use == pre[i].in_use && self.entries@[i].freed_at
                        == pre[i].freed_at && (self.entries@[i].resident ==> pre[i].resident) && (
                    pre[i].in_use ==> self.entries@[i] == pre[i]),
                forall|i: int, j: int|
                    0 <= i < pre.len() && 0 <= j < pre.len() && pre[i].idle() && pre[j].idle() && (
                    #[trigger] self.entries@[i]).resident && !(#[trigger] self.entries@[j]).resident
                        ==> pre[j].freed_at <= pre[i].freed_at,
            decreases idle,
        {
            let m = self.oldest_idle();
            let entry = self.entries[m];
            let ghost before = self.entries@;
            let gone = PoolEntry {
                desc: entry.desc,
                in_use: entry.in_use,
                resident: false,
                freed_at: entry.freed_at,
            };
            self.entries.set(m, gone);
            proof {
                lemma_idle_count_update(before, m as int, gone, before.len() as int);
                assert forall|i: int, j: int|
                    0 <= i < pre.len() && 0 <= j < pre.len() && pre[i].idle() && pre[j].idle() && (
                    #[trigger] self.entries@[i]).resident && !(#[trigger] self.entries@[j]).resident implies pre[j].freed_at
                    <= pre[i].freed_at by {
                    if j == m {
                        assert(before[i].idle());
                    } else {
                        assert(before[i].resident);
                        assert(!before[j].resident);
                    }
                }
            }
            idle -= 1;
        }
    }
}

/// The device memory of one tensor: a pooled buffer, the alignment of the
/// tensor's elements, and the number of bytes that the tensor fills.
#[derive(Clone, Copy, Debug, PartialEq, Eq, Structural)]
pub struct GPUBuffer {
    pub inner: BufferHandle,
    pub alignment: usize,
    pub size: usize,
}

impl GPUBuffer {
    /// The number of bytes that the tensor fills.
    pub fn n_bytes(&self) -> (n: usize)
        ensures
            n == self.size,
    {
        self.size
    }
}

} // verus!
