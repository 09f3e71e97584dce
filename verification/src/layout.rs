//! Bind-group layouts and pipeline layouts, and the pools that hold them.

use vstd::prelude::*;
use crate::pool::{Descriptor, StaticResourcePool};

verus! {

/// What is bound at one slot of a bind group.
#[derive(Clone, Copy, Debug, PartialEq, Eq, Structural, Hash)]
pub enum BindingType {
    /// A storage buffer that the kernel only reads.
    StorageReadOnly,
    /// A storage buffer that the kernel reads and writes.
    StorageReadWrite,
    /// A uniform buffer reached through a dynamic offset.
    DynamicUniform,
}

/// The handle of a bind-group layout in its pool.
#[derive(Clone, Copy, Debug, PartialEq, Eq, Structural, Hash)]
pub struct BindGroupLayoutHandle {
    pub index: usize,
}

/// The handle of a pipeline layout in its pool.
#[derive(Clone, Copy, Debug, PartialEq, Eq, Structural, Hash)]
pub struct PipelineLayoutHandle {
    pub index: usize,
}

/// The bindings of a bind group, slot by slot.
#[derive(Debug)]
pub struct BindGroupLayoutDescriptor {
    entries: Vec<BindingType>,
}

impl View for BindGroupLayoutDescriptor {
    type V = Seq<BindingType>;

    closed spec fn view(&self) -> Seq<BindingType> {
        self.entries@
    }
}

/// `sources` read-only storage buffers followed by one that is written.
pub open spec fn storage_layout(sources: nat) -> Seq<BindingType> {
    Seq::new(sources, |i: int| BindingType::StorageReadOnly).push(BindingType::StorageReadWrite)
}

/// One storage buffer that is read and written, followed by `sources`
/// read-only storage buffers.
pub open spec fn inplace_layout(sources: nat) -> Seq<BindingType> {
    seq![BindingType::StorageReadWrite] + Seq::new(sources, |i: int| BindingType::StorageReadOnly)
}

impl BindGroupLayoutDescriptor {
    fn reading(sources: usize) -> (out: Vec<BindingType>)
        ensures
            out@ == Seq::new(sources as nat, |i: int| BindingType::StorageReadOnly),
    {
        let mut out: Vec<BindingType> = Vec::new();
        let mut i: usize = 0;
        while i < sources
            invariant
                i <= sources,
                out@ == Seq::new(i as nat, |k: int| BindingType::StorageReadOnly),
            decreases sources - i,
        {
            out.push(BindingType::StorageReadOnly);
            i += 1;
            assert(out@ =~= Seq::new(i as nat, |k: int| BindingType::StorageReadOnly));
        }
        out
    }

    /// One source, one destination.
    pub fn unary() -> (out: Self)
        ensures
            out@ == storage_layout(1),
    {
        let mut entries = Self::reading(1);
        entries.push(BindingType::StorageReadWrite);
        BindGroupLayoutDescriptor { entries }
    }

    /// One buffer that is both source and destination.
    pub fn unary_inplace() -> (out: Self)
        ensures
            out@ == inplace_layout(0),
    {
        let mut entries: Vec<BindingType> = Vec::new();
        entries.push(BindingType::StorageReadWrite);
        assert(entries@ =~= inplace_layout(0));
        BindGroupLayoutDescriptor { entries }
    }

    /// Two sources, one destination.
    pub fn binary() -> (out: Self)
        ensures
            out@ == storage_layout(2),
    {
        let mut entries = Self::reading(2);
        entries.push(BindingType::StorageReadWrite);
        BindGroupLayoutDescriptor { entries }
    }

    /// Two sources, the first of which is also the destination.
    pub fn binary_inplace() -> (out: Self)
        ensures
            out@ == inplace_layout(1),
    {
        let mut entries: Vec<BindingType> = Vec::new();
        entries.push(BindingType::StorageReadWrite);
        entries.push(BindingType::StorageReadOnly);
        assert(entries@ =~= inplace_layout(1));
        BindGroupLayoutDescriptor { entries }
    }

    /// Three sources, one destination.
    pub fn ternary() -> (out: Self)
        ensures
            out@ == storage_layout(3),
    {
        let mut entries = Self::reading(3);
        entries.push(BindingType::StorageReadWrite);
        BindGroupLayoutDescriptor { entries }
    }

    /// The one dynamic uniform buffer that holds the parameter records.
    pub fn uniform() -> (out: Self)
        ensures
            out@ == seq![BindingType::DynamicUniform],
    {
        let mut entries: Vec<BindingType> = Vec::new();
        entries.push(BindingType::DynamicUniform);
        assert(entries@ =~= seq![BindingType::DynamicUniform]);
        BindGroupLayoutDescriptor { entries }
    }

    /// The bindings, slot by slot.
    pub fn entries(&self) -> (out: &[BindingType])
        ensures
            out@ == self@,
    {
        self.entries.as_slice()
    }
}

impl Descriptor for BindGroupLayoutDescriptor {
    fn same(&self, other: &Self) -> (b: bool) {
        if self.entries.len() != other.entries.len() {
            return false;
        }
        let mut i: usize = 0;
        while i < self.entries.len()
            invariant
                i <= self.entries.len(),
                self.entries.len() == other.entries.len(),
                forall|k: int| 0 <= k < i ==> self.entries@[k] == other.entries@[k],
            decreases self.entries.len() - i,
        {
            if self.entries[i] != other.entries[i] {
                return false;
            }
            i += 1;
        }
        assert(self.entries@ =~= other.entries@);
        true
    }

    fn duplicate(&self) -> (out: Self) {
        let mut entries: Vec<BindingType> = Vec::new();
        let mut i: usize = 0;
        while i < self.entries.len()
            invariant
                i <= self.entries.len(),
                entries@ == self.entries@.take(i as int),
            decreases self.entries.len() - i,
        {
            entries.push(self.entries[i]);
            i += 1;
            assert(entries@ =~= self.entries@.take(i as int));
        }
        assert(self.entries@.take(self.entries.len() as int) =~= self.entries@);
        BindGroupLayoutDescriptor { entries }
    }
}

/// The bind-group layouts of a pipeline, group by group: the storage
/// bindings first, the parameter record second.
#[derive(Debug)]
pub struct PipelineLayoutDescriptor {
    groups: Vec<BindGroupLayoutHandle>,
}

impl View for PipelineLayoutDescriptor {
    type V = Seq<BindGroupLayoutHandle>;

    closed spec fn view(&self) -> Seq<BindGroupLayoutHandle> {
        self.groups@
    }
}

impl PipelineLayoutDescriptor {
    /// The layout of a pipeline with the given storage and uniform groups.
    pub fn new(storage: BindGroupLayoutHandle, uniform: BindGroupLayoutHandle) -> (out: Self)
        ensures
            out@ == seq![storage, uniform],
    {
        let mut groups: Vec<BindGroupLayoutHandle> = Vec::new();
        groups.push(storage);
        groups.push(uniform);
        assert(groups@ =~= seq![storage, uniform]);
        PipelineLayoutDescriptor { groups }
    }

    /// The bind-group layouts, group by group.
    pub fn groups(&self) -> (out: &[BindGroupLayoutHandle])
        ensures
            out@ == self@,
    {
        self.groups.as_slice()
    }
}

impl Descriptor for PipelineLayoutDescriptor {
    fn same(&self, other: &Self) -> (b: bool) {
        if self.groups.len() != other.groups.len() {
            return false;
        }
        let mut i: usize = 0;
        while i < self.groups.len()
            invariant
                i <= self.groups.len(),
                self.groups.len() == other.groups.len(),
                forall|k: int| 0 <= k < i ==> self.groups@[k] == other.groups@[k],
            decreases self.groups.len() - i,
        {
            if self.groups[i].index != other.groups[i].index {
                return false;
            }
            i += 1;
        }
        assert(self.groups@ =~= other.groups@);
        true
    }

    fn duplicate(&self) -> (out: Self) {
        let mut groups: Vec<BindGroupLayoutHandle> = Vec::new();
        let mut i: usize = 0;
        while i < self.groups.len()
            invariant
                i <= self.groups.len(),
                groups@ == self.groups@.take(i as int),
            decreases self.groups.len() - i,
        {
            groups.push(self.groups[i]);
            i += 1;
            assert(groups@ =~= self.groups@.take(i as int));
        }
        assert(self.groups@.take(self.groups.len() as int) =~= self.groups@);
        PipelineLayoutDescriptor { groups }
    }
}

/// The pool of bind-group layouts of a device.
pub type BindGroupLayoutPool = StaticResourcePool<BindGroupLayoutDescriptor>;

/// The pool of pipeline layouts of a device.
pub type PipelineLayoutPool = StaticResourcePool<PipelineLayoutDescriptor>;

} // verus!
