//! The operation that produces a node of a graph.

use vstd::prelude::*;
use crate::binary::Binary;
use crate::conv::Conv1D;
use crate::error::OperationError;
use crate::gemm::Gemm;
use crate::index_write::IndexWrite;
use crate::layer_norm::LayerNorm;
use crate::matmul::Matmul;
use crate::permute::Permute;
use crate::reshape::Reshape;
use crate::tensor_id::TensorId;
use crate::unary::Unary;
use crate::view::ViewModel;

verus! {

/// The operation that produces a node. `Const` produces nothing: the node
/// holds data that it was given. Every other operation names its operands.
#[derive(Debug)]
pub enum LazyOp {
    Const,
    Binary(Binary),
    Unary(Unary),
    Matmul(Matmul),
    IndexWrite(IndexWrite),
    Permute(Permute),
    Gemm(Gemm),
    Conv1D(Conv1D),
    Reshape(Reshape),
    LayerNorm(LayerNorm),
}

impl Clone for LazyOp {
    fn clone(&self) -> (out: Self)
        ensures
            out.spec_srcs() == self.spec_srcs(),
            out is Const == self is Const,
    {
        match self {
            LazyOp::Const => LazyOp::Const,
            LazyOp::Binary(b) => LazyOp::Binary(*b),
            LazyOp::Unary(u) => LazyOp::Unary(*u),
            LazyOp::Matmul(m) => LazyOp::Matmul(*m),
            LazyOp::IndexWrite(w) => LazyOp::IndexWrite(w.clone()),
            LazyOp::Permute(p) => LazyOp::Permute(p.clone()),
            LazyOp::Gemm(g) => LazyOp::Gemm(*g),
            LazyOp::Conv1D(c) => LazyOp::Conv1D(*c),
            LazyOp::Reshape(r) => LazyOp::Reshape(r.clone()),
            LazyOp::LayerNorm(l) => LazyOp::LayerNorm(*l),
        }
    }
}

impl LazyOp {
    /// The operands, in the order in which they are bound.
    pub open spec fn spec_srcs(&self) -> Seq<TensorId> {
        match self {
            LazyOp::Const => Seq::empty(),
            LazyOp::Binary(b) => seq![b.lhs, b.rhs],
            LazyOp::Unary(u) => seq![u.input],
            LazyOp::Matmul(m) => seq![m.lhs, m.rhs],
            LazyOp::IndexWrite(w) => seq![w.spec_dst(), w.spec_src()],
            LazyOp::Permute(p) => seq![p.input],
            LazyOp::Gemm(g) => g.spec_srcs(),
            LazyOp::Conv1D(c) => c.spec_srcs(),
            LazyOp::Reshape(r) => seq![r.input],
            LazyOp::LayerNorm(l) => l.spec_srcs(),
        }
    }

    /// Whether the result may be written over the first operand.
    pub open spec fn spec_supports_inplace(&self) -> bool {
        self is Binary || self is Unary || self is IndexWrite || self is Reshape
    }

    /// Whether the result can only be written over the first operand.
    pub open spec fn spec_requires_inplace(&self) -> bool {
        self is IndexWrite
    }

    /// The view of the result for operands with the views `srcs`, or the
    /// reason why the operation cannot be applied to them.
    pub open spec fn spec_infer(&self, srcs: Seq<ViewModel>) -> Result<ViewModel, OperationError> {
        match self {
            LazyOp::Const => Err(OperationError::ShapeError),
            LazyOp::Binary(_) => Binary::spec_infer(srcs[0], srcs[1]),
            LazyOp::Unary(u) => u.spec_infer(srcs[0]),
            LazyOp::Matmul(_) => Matmul::spec_infer(srcs[0], srcs[1]),
            LazyOp::IndexWrite(w) => w.spec_infer(srcs[0], srcs[1]),
            LazyOp::Permute(p) => p.spec_infer(srcs[0]),
            LazyOp::Gemm(g) => g.spec_infer(srcs),
            LazyOp::Conv1D(c) => c.spec_infer(srcs),
            LazyOp::Reshape(r) => r.spec_infer(srcs[0]),
            LazyOp::LayerNorm(l) => l.spec_infer(srcs),
        }
    }

    /// Whether the node holds data that it was given.
    pub fn is_const(&self) -> (b: bool)
        ensures
            b == (self is Const),
    {
        match self {
            LazyOp::Const => true,
            _ => false,
        }
    }

    /// The operands, in the order in which they are bound.
    pub fn srcs(&self) -> (out: Vec<TensorId>)
        ensures
            out@ == self.spec_srcs(),
    {
        match self {
            LazyOp::Const => Vec::new(),
            LazyOp::Binary(b) => b.srcs(),
            LazyOp::Unary(u) => u.srcs(),
            LazyOp::Matmul(m) => m.srcs(),
            LazyOp::IndexWrite(w) => w.srcs(),
            LazyOp::Permute(p) => p.srcs(),
            LazyOp::Gemm(g) => g.srcs(),
            LazyOp::Conv1D(c) => c.srcs(),
            LazyOp::Reshape(r) => r.srcs(),
            LazyOp::LayerNorm(l) => l.srcs(),
        }
    }

    /// Whether the result may be written over the first operand.
    pub fn supports_inplace(&self) -> (b: bool)
        ensures
            b == self.spec_supports_inplace(),
    {
        match self {
            LazyOp::Const => false,
            LazyOp::Binary(b) => b.supports_inplace(),
            LazyOp::Unary(u) => u.supports_inplace(),
            LazyOp::Matmul(m) => m.supports_inplace(),
            LazyOp::IndexWrite(w) => w.supports_inplace(),
            LazyOp::Permute(p) => p.supports_inplace(),
            LazyOp::Gemm(g) => g.supports_inplace(),
            LazyOp::Conv1D(c) => c.supports_inplace(),
            LazyOp::Reshape(r) => r.supports_inplace(),
            LazyOp::LayerNorm(l) => l.supports_inplace(),
        }
    }

    /// Whether the result can only be written over the first operand.
    pub fn requires_inplace(&self) -> (b: bool)
        ensures
            b == self.spec_requires_inplace(),
    {
        match self {
            LazyOp::IndexWrite(_) => true,
            _ => false,
        }
    }
}

} // verus!
