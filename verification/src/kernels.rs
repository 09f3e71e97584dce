//! The kernel modules of the engine: shading-language source by kernel key.
//!
//! Every kernel declares the entry point `main` and a workgroup size of 64
//! along X, takes its storage buffers in bind group 0 in the order of the
//! bind-group layout of its operation, and reads its parameter record from
//! the dynamic uniform binding 0 of bind group 1.

use vstd::prelude::*;

verus! {

/// The source that stands under `key` in `entries`: the one that was put
/// there last.
pub open spec fn lookup(entries: Seq<(Seq<char>, Seq<char>)>, key: Seq<char>) -> Option<Seq<char>>
    decreases entries.len(),
{
    if entries.len() == 0 {
        None
    } else if entries.last().0 == key {
        Some(entries.last().1)
    } else {
        lookup(entries.drop_last(), key)
    }
}

/// The sources of the kernels that are built into a program, by kernel key.
pub struct KernelModules {
    keys: Vec<String>,
    sources: Vec<String>,
}

impl View for KernelModules {
    type V = Seq<(Seq<char>, Seq<char>)>;

    closed spec fn view(&self) -> Seq<(Seq<char>, Seq<char>)> {
        Seq::new(self.keys@.len(), |i: int| (self.keys@[i]@, self.sources@[i]@))
    }
}

impl KernelModules {
    /// There is one source for each key.
    pub closed spec fn wf(&self) -> bool {
        self.keys@.len() == self.sources@.len()
    }

    /// The name of the entry point of every kernel.
    pub fn entry_point() -> (out: &'static str)
        ensures
            out@ == "main"@,
    {
        "main"
    }

    /// No kernels.
    pub fn new() -> (out: KernelModules)
        ensures
            out.wf(),
            out@ == Seq::<(Seq<char>, Seq<char>)>::empty(),
    {
        let out = KernelModules { keys: Vec::new(), sources: Vec::new() };
        assert(out@ =~= Seq::<(Seq<char>, Seq<char>)>::empty());
        out
    }

    /// The number of sources that were registered.
    pub fn len(&self) -> (n: usize)
        requires
            self.wf(),
        ensures
            n == self@.len(),
    {
        self.keys.len()
    }

    /// Makes `source` the source of the kernel `key`, as `add_vec4` or
    /// `index_write_scalar`.
    pub fn register(&mut self, key: &str, source: &str)
        requires
            old(self).wf(),
        ensures
            final(self).wf(),
            final(self)@ == old(self)@.push((key@, source@)),
    {
        self.keys.push(key.to_owned());
        self.sources.push(source.to_owned());
        assert(self@ =~= old(self)@.push((key@, source@)));
    }

    /// The source of the kernel `key`: the one that was registered last
    /// under that key.
    pub fn get(&self, key: &str) -> (out: Option<&str>)
        requires
            self.wf(),
        ensures
            match out {
                Some(source) => lookup(self@, key@) == Some(source@),
                None => lookup(self@, key@) is None,
            },
    {
        let wanted = key.to_owned();
        let mut i: usize = self.keys.len();
        assert(self@.take(i as int) =~= self@);
        while i > 0
            invariant
                i <= self.keys@.len(),
                self.wf(),
                wanted@ == key@,
                lookup(self@, key@) == lookup(self@.take(i as int), key@),
            decreases i,
        {
            i -= 1;
            proof {
                let prefix = self@.take(i + 1);
                assert(prefix.last() == self@[i as int]);
                assert(prefix.drop_last() =~= self@.take(i as int));
            }
            if self.keys[i] == wanted {
                return Some(self.sources[i].as_str());
            }
        }
        None
    }
}

} // verus!
