//! Writing a tensor into a region of another one, in place.

use vstd::prelude::*;
use vstd::string::StringExecFns;
use crate::error::OperationError;
use crate::layout::{inplace_layout, BindGroupLayoutDescriptor};
use crate::meta::{spec_stride_uvec4, spec_uvec4, stride_uvec4, uvec4};
use crate::pipeline_pool::KernelElement;
use crate::tensor_id::TensorId;
use crate::uniform::{record_bytes, zeros, CpuUniform, MetaField, UVec4};
use crate::view::{StorageView, ViewModel};
use crate::workgroup::{spec_dispatch, WorkgroupCount};

verus! {

/// Whether a block of the shape `src` that starts at `start` lies within a
/// tensor of the shape `dst`: the three have one rank, and in every
/// dimension the block ends within the extent.
pub open spec fn region_fits(dst: Seq<usize>, src: Seq<usize>, start: Seq<usize>) -> bool {
    &&& src.len() == dst.len()
    &&& start.len() == dst.len()
    &&& forall|i: int| 0 <= i < dst.len() ==> #[trigger] start[i] + src[i] <= dst[i]
}

/// The operation that copies the tensor `src` into the tensor `dst`, to the
/// block that starts at `write_start`. The result is `dst` itself, changed.
#[derive(Debug)]
pub struct IndexWrite {
    pub dst: TensorId,
    pub src: TensorId,
    pub write_start: Vec<usize>,
}

/// The parameter record of the kernel.
#[derive(Clone, Copy, Debug, PartialEq, Eq, Structural)]
pub struct IndexWriteMeta {
    pub dst_strides: UVec4,
    pub src_numel: u32,
    pub write_start: UVec4,
}

impl IndexWriteMeta {
    /// The record with the given members.
    pub fn new(dst_strides: UVec4, src_numel: u32, write_start: UVec4) -> (out: IndexWriteMeta)
        ensures
            out.dst_strides == dst_strides,
            out.src_numel == src_numel,
            out.write_start == write_start,
    {
        IndexWriteMeta { dst_strides, src_numel, write_start }
    }

    /// The members of the record, in the order in which they are laid out.
    pub open spec fn spec_fields(self) -> Seq<MetaField> {
        seq![
            self.dst_strides.spec_field(),
            MetaField::Scalar(self.src_numel),
            self.write_start.spec_field(),
        ]
    }

    /// The members of the record, in the order in which they are laid out.
    pub fn fields(&self) -> (out: Vec<MetaField>)
        ensures
            out@ == self.spec_fields(),
    {
        let mut out: Vec<MetaField> = Vec::new();
        out.push(self.dst_strides.field());
        out.push(MetaField::Scalar(self.src_numel));
        out.push(self.write_start.field());
        assert(out@ =~= self.spec_fields());
        out
    }
}

impl Clone for IndexWrite {
    fn clone(&self) -> (out: Self)
        ensures
            out.spec_dst() == self.spec_dst(),
            out.spec_src() == self.spec_src(),
            out.spec_write_start() == self.spec_write_start(),
    {
        IndexWrite { dst: self.dst, src: self.src, write_start: self.write_start.clone() }
    }
}

impl IndexWrite {
    /// The tensor that is written into.
    pub open spec fn spec_dst(&self) -> TensorId {
        self.dst
    }

    /// The tensor that is written.
    pub open spec fn spec_src(&self) -> TensorId {
        self.src
    }

    /// Where the block starts, dimension by dimension.
    pub open spec fn spec_write_start(&self) -> Seq<usize> {
        self.write_start@
    }

    /// The operation that writes `src` into `dst` at `write_start`.
    pub fn new(dst: TensorId, src: TensorId, write_start: Vec<usize>) -> (out: IndexWrite)
        ensures
            out.spec_dst() == dst,
            out.spec_src() == src,
            out.spec_write_start() == write_start@,
    {
        IndexWrite { dst, src, write_start }
    }

    /// The tensor that is written into.
    #[verifier::when_used_as_spec(spec_dst)]
    pub fn dst(&self) -> (out: TensorId)
        ensures
            out == self.spec_dst(),
    {
        self.dst
    }

    /// The tensor that is written.
    #[verifier::when_used_as_spec(spec_src)]
    pub fn src(&self) -> (out: TensorId)
        ensures
            out == self.spec_src(),
    {
        self.src
    }

    /// Where the block starts, dimension by dimension.
    pub fn write_start(&self) -> (out: &[usize])
        ensures
            out@ == self.spec_write_start(),
    {
        self.write_start.as_slice()
    }

    /// Whether the shapes allow the operation: a kernel can be told of both
    /// tensors, and the block lies within the destination.
    pub open spec fn shapes_ok(&self, dst: ViewModel, src: ViewModel) -> bool {
        &&& dst.kernel_ready()
        &&& src.kernel_ready()
        &&& region_fits(dst.shape, src.shape, self.spec_write_start())
    }

    /// The view of the result: that of the destination, where the shapes
    /// allow the operation and the element types agree.
    pub open spec fn spec_infer(&self, dst: ViewModel, src: ViewModel) -> Result<
        ViewModel,
        OperationError,
    > {
        if !self.shapes_ok(dst, src) {
            Err(OperationError::ShapeError)
        } else if dst.dt != src.dt {
            Err(OperationError::DtypeError)
        } else {
            Ok(dst)
        }
    }

    /// The parameter record of the kernel: the row-major strides of the
    /// destination's shape padded to rank 4, the number of elements written,
    /// and the start of the block padded on the left with zeros.
    pub open spec fn spec_meta(&self, dst: ViewModel, src: ViewModel) -> IndexWriteMeta {
        IndexWriteMeta {
            dst_strides: spec_stride_uvec4(dst.shape),
            src_numel: src.numel() as u32,
            write_start: spec_uvec4(self.spec_write_start(), 0),
        }
    }

    /// Checks that the block lies within the destination, and that a kernel
    /// can be told of both tensors.
    pub fn check_shapes(&self, dst: &StorageView, src: &StorageView) -> (out: Result<
        (),
        OperationError,
    >)
        ensures
            out is Ok <==> self.shapes_ok(dst@, src@),
            out is Err ==> out->Err_0 == OperationError::ShapeError,
    {
        if !dst.is_kernel_ready() || !src.is_kernel_ready() {
            return Err(OperationError::ShapeError);
        }
        let n = dst.shape().len();
        if src.shape().len() != n || self.write_start.len() != n {
            return Err(OperationError::ShapeError);
        }
        let mut i: usize = 0;
        while i < n
            invariant
                i <= n,
                n == dst@.shape.len(),
                n == src@.shape.len(),
                n == self.write_start@.len(),
                forall|k: int|
                    0 <= k < i ==> #[trigger] self.write_start@[k] + src@.shape[k] <= dst@.shape[k],
            decreases n - i,
        {
            let d = dst.shape().get(i);
            let s = src.shape().get(i);
            let w = self.write_start[i];
            if w > d || s > d - w {
                assert(self.write_start@[i as int] + src@.shape[i as int] > dst@.shape[i as int]);
                return Err(OperationError::ShapeError);
            }
            i += 1;
        }
        Ok(())
    }

    /// Checks that both tensors have the same element type.
    pub fn check_dtypes(&self, dst: &StorageView, src: &StorageView) -> (out: Result<
        (),
        OperationError,
    >)
        ensures
            out is Ok <==> dst@.dt == src@.dt,
            out is Err ==> out->Err_0 == OperationError::DtypeError,
    {
        if dst.dt() != src.dt() {
            Err(OperationError::DtypeError)
        } else {
            Ok(())
        }
    }

    /// Checks the shapes, then the element types.
    pub fn check_invariants(&self, dst: &StorageView, src: &StorageView) -> (out: Result<
        (),
        OperationError,
    >)
        ensures
            match out {
                Ok(_) => self.spec_infer(dst@, src@) is Ok,
                Err(e) => self.spec_infer(dst@, src@) == Err::<ViewModel, OperationError>(e),
            },
    {
        match self.check_shapes(dst, src) {
            Ok(_) => self.check_dtypes(dst, src),
            Err(e) => Err(e),
        }
    }

    /// The view of the result: that of the destination.
    pub fn compute_view(&self, dst: &StorageView) -> (out: Result<StorageView, OperationError>)
        ensures
            out is Ok,
            out->Ok_0@ == dst@,
    {
        Ok(dst.clone())
    }

    /// The name of the kernel.
    pub fn kernel_name(&self) -> (out: String)
        ensures
            out@ == "index_write"@,
    {
        String::from_str("index_write")
    }

    /// The operation writes into its destination.
    pub fn supports_inplace(&self) -> (b: bool)
        ensures
            b,
    {
        true
    }

    /// The operands, in the order in which they are bound: the destination,
    /// then the tensor that is written.
    pub fn srcs(&self) -> (out: Vec<TensorId>)
        ensures
            out@ == seq![self.spec_dst(), self.spec_src()],
    {
        let mut out: Vec<TensorId> = Vec::new();
        out.push(self.dst);
        out.push(self.src);
        assert(out@ =~= seq![self.dst, self.src]);
        out
    }

    /// The key of the kernel: its name and its element width. There is only
    /// the in-place kernel, so the key does not depend on `inplace`.
    pub fn kernel_key(&self, inplace: bool, dst: &StorageView) -> (out: String)
        ensures
            out@ == "index_write"@ + "_"@ + KernelElement::Scalar.name(),
    {
        let mut key = self.kernel_name();
        key.append("_");
        key.append(self.kernel_element(dst).as_str());
        key
    }

    /// The element width of the kernel: one, whatever the destination, since
    /// a block may start anywhere.
    pub fn kernel_element(&self, dst: &StorageView) -> (e: KernelElement)
        ensures
            e == KernelElement::Scalar,
    {
        KernelElement::Scalar
    }

    /// The workgroup counts of the dispatch: enough for every element that
    /// is written.
    pub fn calculate_dispatch(&self, src: &StorageView) -> (out: Result<
        WorkgroupCount,
        OperationError,
    >)
        requires
            src@.valid(),
        ensures
            match out {
                Ok(count) => count.as_triple() == spec_dispatch(src@.numel()),
                Err(e) => e == OperationError::DispatchTooLarge && spec_dispatch(src@.numel()).1
                    > WorkgroupCount::MAX_WGS_PER_DIM,
            },
    {
        match WorkgroupCount::for_numel(src.numel()) {
            Some(count) => Ok(count),
            None => Err(OperationError::DispatchTooLarge),
        }
    }

    /// The layout of the storage bindings: the destination, read and
    /// written, and the tensor that is written into it. The operation exists
    /// in place only.
    pub fn storage_bind_group_layout(&self, inplace: bool) -> (out: Result<
        BindGroupLayoutDescriptor,
        OperationError,
    >)
        requires
            inplace,
        ensures
            out is Ok,
            out->Ok_0@ == inplace_layout(1),
    {
        Ok(BindGroupLayoutDescriptor::binary_inplace())
    }

    /// The parameter record of the kernel.
    pub fn metadata(&self, dst: &StorageView, src: &StorageView) -> (out: IndexWriteMeta)
        requires
            self.shapes_ok(dst@, src@),
            dst@.numel() > 0,
        ensures
            out == self.spec_meta(dst@, src@),
    {
        let dst_strides = stride_uvec4(dst.shape());
        let src_numel = src.numel() as u32;
        proof {
            assert forall|i: int| 0 <= i < self.write_start@.len() implies self.write_start@[i]
                <= u32::MAX by {
                assert(self.write_start@[i] + src@.shape[i] <= dst@.shape[i]);
            }
        }
        let write_start = uvec4(self.write_start.as_slice(), 0);
        IndexWriteMeta { dst_strides, src_numel, write_start }
    }

    /// Writes the parameter record of the kernel to the staging area and
    /// returns the offset at which it stands.
    pub fn write_metadata(
        &self,
        uniform: &mut CpuUniform,
        dst: &StorageView,
        src: &StorageView,
        elem: &KernelElement,
    ) -> (out: Result<u64, OperationError>)
        requires
            old(uniform).wf(),
            self.shapes_ok(dst@, src@),
            dst@.numel() > 0,
        ensures
            final(uniform).wf(),
            match out {
                Ok(at) => {
                    &&& old(uniform).has_room(
                        record_bytes(self.spec_meta(dst@, src@).spec_fields()).len(),
                    )
                    &&& at == old(uniform).next_offset()
                    &&& final(uniform)@ == old(uniform)@ + zeros((at - old(uniform)@.len()) as nat)
                        + record_bytes(self.spec_meta(dst@, src@).spec_fields())
                },
                Err(e) => {
                    &&& !old(uniform).has_room(
                        record_bytes(self.spec_meta(dst@, src@).spec_fields()).len(),
                    )
                    &&& e == OperationError::UniformOverflow
                    &&& final(uniform)@ == old(uniform)@
                },
            },
    {
        let meta = self.metadata(dst, src);
        uniform.write(&meta.fields())
    }
}

} // verus!
