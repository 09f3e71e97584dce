//! Layers of networks: each puts the nodes of its operations into a graph
//! when it is scheduled on an input.

use vstd::prelude::*;
use crate::binary::{Binary, BinaryOp};
use crate::builder::build_result;
use crate::conv::Conv1D;
use crate::error::OperationError;
use crate::gemm::Gemm;
use crate::graph::{node_ok, Graph};
use crate::lazy_op::LazyOp;
use crate::permute::Permute;
use crate::tensor::Tensor;
use crate::tensor_id::TensorId;
use crate::unary::{Unary, UnaryOp};
use crate::view::ViewModel;

verus! {

/// The id of a tensor, where there is one.
pub open spec fn id_of_opt(t: Option<Tensor>) -> Option<TensorId> {
    match t {
        Some(t) => Some(t.id()),
        None => None,
    }
}

impl Graph {
    /// The graph has the nodes of `before` and behind them `added` nodes
    /// more, none of them computed; those before have the storage and the
    /// handles that they had, and the device has the resources that it had.
    pub open spec fn extends(&self, before: &Graph, added: int) -> bool {
        let n = before.nodes().len() as int;
        &&& self.wf()
        &&& added >= 0
        &&& self.nodes().len() == n + added
        &&& self.nodes().take(n) == before.nodes()
        &&& self.storages().take(n) == before.storages()
        &&& self.handles().take(n) == before.handles()
        &&& forall|i: int| n <= i < n + added ==> (#[trigger] self.storages()[i]) is None
        &&& self.pool() == before.pool()
        &&& self.gpu().bind_group_layouts == before.gpu().bind_group_layouts
        &&& self.gpu().pipeline_layouts == before.gpu().pipeline_layouts
        &&& self.gpu().pipelines == before.gpu().pipelines
        &&& self.uploads() == before.uploads()
    }

    /// Whether `op` produces node `i`, to which `handles` handles are held.
    pub open spec fn made_by(&self, i: int, op: LazyOp, handles: usize) -> bool {
        &&& 0 <= i < self.nodes().len()
        &&& self.nodes()[i].op == op
        &&& self.handles()[i] == handles
    }
}

/// A linear layer: `y = x W + b`, or `y = x Wᵀ + b` where the weights are
/// stored transposed.
#[derive(Debug)]
pub struct Linear {
    pub w: Tensor,
    pub b: Option<Tensor>,
    pub transpose: bool,
}

impl Linear {
    /// The bias of the layer, where it has one.
    pub open spec fn spec_bias(&self) -> Option<TensorId> {
        match self.b {
            Some(b) => Some(b.id()),
            None => None,
        }
    }

    /// Whether the weights are read transposed.
    pub open spec fn spec_transpose(&self) -> bool {
        self.transpose
    }

    /// The operation that the layer applies to `input`.
    pub open spec fn spec_op(&self, input: TensorId) -> LazyOp {
        LazyOp::Gemm(
            Gemm {
                lhs: input,
                rhs: self.w.id(),
                bias: self.spec_bias(),
                trans_lhs: false,
                trans_rhs: self.spec_transpose(),
                trans_out: false,
            },
        )
    }

    /// Handles to the weights and to the bias are held.
    pub open spec fn held_in(&self, graph: &Graph) -> bool {
        &&& graph.held(self.w.id())
        &&& self.spec_bias() matches Some(b) ==> graph.held(b)
    }

    /// The layer with the weights `w` and the bias `b`.
    pub fn new(w: Tensor, b: Option<Tensor>, transpose: bool) -> (out: Linear)
        ensures
            out.w == w,
            out.spec_bias() == id_of_opt(b),
            out.spec_transpose() == transpose,
    {
        Linear { w, b, transpose }
    }

    /// Puts the product of `input` with the weights, with the bias added,
    /// into the graph.
    pub fn schedule(&self, input: &Tensor, graph: &mut Graph) -> (out: Result<Tensor, OperationError>)
        requires
            old(graph).wf(),
            old(graph).held(input.id()),
            self.held_in(old(graph)),
        ensures
            final(graph).built(
                old(graph),
                self.spec_op(input.id()),
                match out {
                    Ok(t) => Ok(t.id()),
                    Err(e) => Err(e),
                },
            ),
            out is Ok ==> final(graph).held(out->Ok_0.id()),
    {
        input.gemm(&self.w, self.b.as_ref(), false, self.transpose, false, graph)
    }
}

/// A convolution followed by the GELU activation.
#[derive(Debug)]
pub struct ConvBlock {
    w: Tensor,
    b: Tensor,
    stride: usize,
    padding: usize,
}

impl ConvBlock {
    /// The convolution that the block applies to `input`.
    pub closed spec fn spec_conv(&self, input: TensorId) -> LazyOp {
        LazyOp::Conv1D(
            Conv1D {
                input,
                weight: self.w.id(),
                bias: Some(self.b.id()),
                stride: self.stride,
                padding: self.padding,
            },
        )
    }

    /// Handles to the weights and to the bias are held.
    pub closed spec fn held_in(&self, graph: &Graph) -> bool {
        graph.held(self.w.id()) && graph.held(self.b.id())
    }

    /// Holding does not depend on nodes that are added.
    pub proof fn lemma_held(&self, before: &Graph, after: &Graph)
        requires
            self.held_in(before),
            after.nodes().len() >= before.nodes().len(),
            after.handles().len() == after.nodes().len(),
            after.handles().take(before.nodes().len() as int) == before.handles(),
            before.handles().len() == before.nodes().len(),
        ensures
            self.held_in(after),
    {
        let n = before.nodes().len() as int;
        assert(after.handles().take(n)[self.w.id().index as int]
            == after.handles()[self.w.id().index as int]);
        assert(after.handles().take(n)[self.b.id().index as int]
            == after.handles()[self.b.id().index as int]);
    }

    /// The block with the weights `w`, the bias `b`, the stride and the
    /// padding.
    pub fn new(w: Tensor, b: Tensor, stride: usize, padding: usize) -> (out: ConvBlock)
        ensures
            forall|input: TensorId| #[trigger]
                out.spec_conv(input) == LazyOp::Conv1D(
                    Conv1D { input, weight: w.id(), bias: Some(b.id()), stride, padding },
                ),
            forall|graph: &Graph| #[trigger]
                out.held_in(graph) == (graph.held(w.id()) && graph.held(b.id())),
    {
        ConvBlock { w, b, stride, padding }
    }

    /// Puts the convolution of `input` and its activation into the graph.
    /// Where the convolution cannot be applied, nothing is added. The handle
    /// to the convolution is given up: only the activation reads it.
    pub fn schedule(&self, input: &Tensor, graph: &mut Graph) -> (out: Result<Tensor, OperationError>)
        requires
            old(graph).wf(),
            old(graph).held(input.id()),
            self.held_in(old(graph)),
        ensures
            match out {
                Ok(t) => {
                    let n = old(graph).nodes().len() as int;
                    &&& build_result(old(graph).nodes(), self.spec_conv(input.id())) is Ok
                    &&& final(graph).extends(old(graph), 2)
                    &&& final(graph).made_by(n, self.spec_conv(input.id()), 0)
                    &&& final(graph).made_by(
                        n + 1,
                        LazyOp::Unary(
                            Unary { input: (TensorId { index: n as usize }), op: UnaryOp::Gelu },
                        ),
                        1,
                    )
                    &&& t.id().index == n + 1
                },
                Err(e) => build_result(old(graph).nodes(), self.spec_conv(input.id())) == Err::<
                    ViewModel,
                    OperationError,
                >(e) && final(graph).same_as(old(graph)),
            },
    {
        let ghost n = graph.nodes().len() as int;
        let conv = match input.conv1d(&self.w, Some(&self.b), self.stride, self.padding, graph) {
            Ok(conv) => conv,
            Err(e) => {
                return Err(e);
            },
        };
        let ghost mid = *graph;
        proof {
            assert(node_ok(graph.nodes(), n));
            assert(graph.nodes()[n].view@.kernel_ready());
            let lazy = LazyOp::Unary(Unary { input: conv.id(), op: UnaryOp::Gelu });
            assert(Seq::new(1, |k: int| graph.nodes()[lazy.spec_srcs()[k].index as int].view@)[0]
                == graph.nodes()[n].view@);
            assert(build_result(graph.nodes(), lazy) is Ok);
        }
        let out = match conv.gelu(graph) {
            Ok(out) => out,
            Err(_) => vstd::pervasive::unreached(),
        };
        conv.release(graph);
        proof {
            let m = old(graph).nodes().len() as int;
            assert(graph.nodes().take(m) =~= old(graph).nodes());
            assert(graph.storages().take(m) =~= old(graph).storages());
            assert(graph.handles().take(m) =~= old(graph).handles());
        }
        Ok(out)
    }
}

impl Graph {
    /// The graph has the nodes of `before`, with the storage that they had,
    /// and behind them nodes that are not computed; to the nodes before
    /// place `base` as many handles are held as were; and the device has the
    /// resources that it had.
    pub open spec fn grows_from(&self, before: &Graph, base: int) -> bool {
        &&& self.wf()
        &&& 0 <= base <= before.nodes().len() <= self.nodes().len()
        &&& forall|i: int|
            0 <= i < before.nodes().len() ==> (#[trigger] self.nodes()[i]) == before.nodes()[i]
        &&& forall|i: int|
            0 <= i < before.nodes().len() ==> (#[trigger] self.storages()[i])
                == before.storages()[i]
        &&& forall|i: int|
            0 <= i < base ==> (#[trigger] self.handles()[i]) == before.handles()[i]
        &&& forall|i: int|
            before.nodes().len() <= i < self.nodes().len() ==> (#[trigger] self.storages()[i]) is None
        &&& self.pool() == before.pool()
        &&& self.gpu().bind_group_layouts == before.gpu().bind_group_layouts
        &&& self.gpu().pipeline_layouts == before.gpu().pipeline_layouts
        &&& self.gpu().pipelines == before.gpu().pipelines
        &&& self.uploads() == before.uploads()
    }
}

/// A graph that extends another one grows from it.
pub proof fn lemma_extends_grows(before: &Graph, after: &Graph, added: int)
    requires
        before.wf(),
        after.extends(before, added),
    ensures
        after.grows_from(before, before.nodes().len() as int),
{
    let n = before.nodes().len() as int;
    assert forall|i: int| 0 <= i < n implies (#[trigger] after.nodes()[i]) == before.nodes()[i] by {
        assert(after.nodes().take(n)[i] == after.nodes()[i]);
    }
    assert forall|i: int| 0 <= i < n implies (#[trigger] after.storages()[i])
        == before.storages()[i] by {
        assert(after.storages().take(n)[i] == after.storages()[i]);
    }
    assert forall|i: int| 0 <= i < n implies (#[trigger] after.handles()[i])
        == before.handles()[i] by {
        assert(after.handles().take(n)[i] == after.handles()[i]);
    }
}

/// A graph that grows from another one, with all the handles to the nodes
/// of that one as they were, extends it.
pub proof fn lemma_grows_extends(before: &Graph, after: &Graph)
    requires
        before.wf(),
        after.grows_from(before, before.nodes().len() as int),
    ensures
        after.extends(before, after.nodes().len() - before.nodes().len()),
{
    let n = before.nodes().len() as int;
    assert(after.nodes().take(n) =~= before.nodes());
    assert(after.storages().take(n) =~= before.storages());
    assert(after.handles().take(n) =~= before.handles());
}

/// Growing goes on: what grows from a graph that grew from another one grew
/// from that one.
pub proof fn lemma_grows_on(a: &Graph, b: &Graph, c: &Graph, base: int, later: int)
    requires
        b.grows_from(a, base),
        c.grows_from(b, later),
        base <= later,
    ensures
        c.grows_from(a, base),
{
    assert forall|i: int| 0 <= i < a.nodes().len() implies (#[trigger] c.nodes()[i])
        == a.nodes()[i] by {
        assert(b.nodes()[i] == a.nodes()[i]);
    }
    assert forall|i: int| 0 <= i < a.nodes().len() implies (#[trigger] c.storages()[i])
        == a.storages()[i] by {
        assert(b.storages()[i] == a.storages()[i]);
    }
    assert forall|i: int| 0 <= i < base implies (#[trigger] c.handles()[i]) == a.handles()[i] by {
        assert(b.handles()[i] == a.handles()[i]);
    }
    assert forall|i: int| a.nodes().len() <= i < c.nodes().len() implies (
    #[trigger] c.storages()[i]) is None by {
        if i < b.nodes().len() {
            assert(b.storages()[i] is None);
        }
    }
}

/// Gives up the handle `t` to a node that is not computed.
fn give_up(t: Tensor, graph: &mut Graph)
    requires
        old(graph).wf(),
        old(graph).held(t.id()),
        old(graph).storages()[t.id().index as int] is None,
    ensures
        final(graph).grows_from(old(graph), t.id().index as int),
        final(graph).nodes().len() == old(graph).nodes().len(),
        final(graph).handles()[t.id().index as int] == old(graph).handles()[t.id().index as int]
            - 1,
        forall|i: int|
            0 <= i < old(graph).nodes().len() && i != t.id().index ==> (
            #[trigger] final(graph).handles()[i]) == old(graph).handles()[i],
{
    t.release(graph);
}

/// Adds the block `block`, applied to `prev`, and gives `prev` up.
#[verifier::rlimit(50)]
fn stage_conv(block: &ConvBlock, prev: Tensor, graph: &mut Graph) -> (out: Result<
    Tensor,
    OperationError,
>)
    requires
        old(graph).wf(),
        old(graph).held(prev.id()),
        old(graph).storages()[prev.id().index as int] is None,
        block.held_in(old(graph)),
    ensures
        final(graph).grows_from(old(graph), prev.id().index as int),
        final(graph).handles()[prev.id().index as int] == old(graph).handles()[prev.id().index as int]
            - 1,
        match out {
            Ok(t) => {
                let n = old(graph).nodes().len() as int;
                &&& final(graph).nodes().len() == n + 2
                &&& final(graph).made_by(n, block.spec_conv(prev.id()), 0)
                &&& final(graph).made_by(
                    n + 1,
                    LazyOp::Unary(
                        Unary { input: (TensorId { index: n as usize }), op: UnaryOp::Gelu },
                    ),
                    1,
                )
                &&& t.id().index == n + 1
            },
            Err(e) => final(graph).nodes().len() == old(graph).nodes().len() && build_result(
                final(graph).nodes(),
                block.spec_conv(prev.id()),
            ) == Err::<ViewModel, OperationError>(e),
        },
{
    let ghost g0 = *graph;
    let out = block.schedule(&prev, graph);
    let ghost g1 = *graph;
    proof {
        if out is Ok {
            lemma_extends_grows(&g0, &g1, 2);
        } else {
            assert(g1.grows_from(&g0, g0.nodes().len() as int));
        }
    }
    give_up(prev, graph);
    proof {
        lemma_grows_on(&g0, &g1, graph, prev.id().index as int, prev.id().index as int);
    }
    out
}

/// Adds the exchange of the last two of three dimensions of `prev`, and
/// gives `prev` up.
#[verifier::rlimit(50)]
fn stage_swap(prev: Tensor, graph: &mut Graph) -> (out: Result<Tensor, OperationError>)
    requires
        old(graph).wf(),
        old(graph).held(prev.id()),
        old(graph).storages()[prev.id().index as int] is None,
    ensures
        final(graph).grows_from(old(graph), prev.id().index as int),
        final(graph).handles()[prev.id().index as int] == old(graph).handles()[prev.id().index as int]
            - 1,
        match out {
            Ok(t) => {
                let n = old(graph).nodes().len() as int;
                &&& final(graph).nodes().len() == n + 1
                &&& final(graph).nodes()[n].op matches LazyOp::Permute(p)
                &&& p.input == prev.id()
                &&& p.axes@ == seq![0usize, 2usize, 1usize]
                &&& final(graph).handles()[n] == 1
                &&& t.id().index == n
            },
            Err(e) => final(graph).nodes().len() == old(graph).nodes().len() && exists|
                p: crate::permute::Permute,
            |
                p.input == prev.id() && p.axes@ == seq![0usize, 2usize, 1usize] && build_result(
                    final(graph).nodes(),
                    LazyOp::Permute(p),
                ) == Err::<ViewModel, OperationError>(e),
        },
{
    let ghost g0 = *graph;
    let mut axes: Vec<usize> = Vec::new();
    axes.push(0);
    axes.push(2);
    axes.push(1);
    assert(axes@ =~= seq![0usize, 2usize, 1usize]);
    let ghost swap = crate::permute::Permute { input: prev.id(), axes };
    let out = prev.permute(axes, graph);
    let ghost g1 = *graph;
    proof {
        if out is Ok {
            assert(g1.nodes().take(g0.nodes().len() as int) == g0.nodes());
            assert forall|i: int| 0 <= i < g0.nodes().len() implies (#[trigger] g1.nodes()[i])
                == g0.nodes()[i] by {
                assert(g1.nodes().take(g0.nodes().len() as int)[i] == g1.nodes()[i]);
            }
            assert forall|i: int| 0 <= i < g0.nodes().len() implies (
            #[trigger] g1.storages()[i]) == g0.storages()[i] by {
                assert(g1.storages().take(g0.nodes().len() as int)[i] == g1.storages()[i]);
            }
        }
        assert(g1.grows_from(&g0, g0.nodes().len() as int));
    }
    give_up(prev, graph);
    proof {
        lemma_grows_on(&g0, &g1, graph, prev.id().index as int, prev.id().index as int);
        if out is Err {
            assert(build_result(graph.nodes(), LazyOp::Permute(swap)) == Err::<
                ViewModel,
                OperationError,
            >(out->Err_0));
        }
    }
    out
}

/// Adds the sum of `prev` and `other`, and gives `prev` up.
#[verifier::rlimit(50)]
fn stage_add(prev: Tensor, other: &Tensor, graph: &mut Graph) -> (out: Result<
    Tensor,
    OperationError,
>)
    requires
        old(graph).wf(),
        old(graph).held(prev.id()),
        old(graph).held(other.id()),
        old(graph).storages()[prev.id().index as int] is None,
    ensures
        final(graph).grows_from(old(graph), prev.id().index as int),
        final(graph).handles()[prev.id().index as int] == old(graph).handles()[prev.id().index as int]
            - 1,
        match out {
            Ok(t) => {
                let n = old(graph).nodes().len() as int;
                &&& final(graph).nodes().len() == n + 1
                &&& final(graph).made_by(
                    n,
                    LazyOp::Binary(Binary { lhs: prev.id(), rhs: other.id(), op: BinaryOp::Add }),
                    1,
                )
                &&& t.id().index == n
            },
            Err(e) => final(graph).nodes().len() == old(graph).nodes().len() && build_result(
                final(graph).nodes(),
                LazyOp::Binary(Binary { lhs: prev.id(), rhs: other.id(), op: BinaryOp::Add }),
            ) == Err::<ViewModel, OperationError>(e),
        },
{
    let ghost g0 = *graph;
    let out = prev.add(other, graph);
    let ghost g1 = *graph;
    proof {
        if out is Ok {
            assert forall|i: int| 0 <= i < g0.nodes().len() implies (#[trigger] g1.nodes()[i])
                == g0.nodes()[i] by {
                assert(g1.nodes().take(g0.nodes().len() as int)[i] == g1.nodes()[i]);
            }
            assert forall|i: int| 0 <= i < g0.nodes().len() implies (
            #[trigger] g1.storages()[i]) == g0.storages()[i] by {
                assert(g1.storages().take(g0.nodes().len() as int)[i] == g1.storages()[i]);
            }
        }
        assert(g1.grows_from(&g0, g0.nodes().len() as int));
    }
    give_up(prev, graph);
    proof {
        lemma_grows_on(&g0, &g1, graph, prev.id().index as int, prev.id().index as int);
    }
    out
}

/// The stem of an encoder: two convolutions with their activations, the
/// exchange of the last two dimensions, and the addition of the embedding of
/// the positions.
#[derive(Debug)]
pub struct EncoderStem {
    conv1: ConvBlock,
    conv2: ConvBlock,
    pos_embed: Tensor,
}

impl EncoderStem {
    /// The first convolution, applied to `input`.
    pub closed spec fn spec_conv1(&self, input: TensorId) -> LazyOp {
        self.conv1.spec_conv(input)
    }

    /// The second convolution, applied to `input`.
    pub closed spec fn spec_conv2(&self, input: TensorId) -> LazyOp {
        self.conv2.spec_conv(input)
    }

    /// The addition of the embedding of the positions to `input`.
    pub closed spec fn spec_embed(&self, input: TensorId) -> LazyOp {
        LazyOp::Binary(Binary { lhs: input, rhs: self.pos_embed.id(), op: BinaryOp::Add })
    }

    /// Handles to all the weights of the stem are held.
    pub closed spec fn held_in(&self, graph: &Graph) -> bool {
        &&& self.conv1.held_in(graph)
        &&& self.conv2.held_in(graph)
        &&& graph.held(self.pos_embed.id())
    }

    /// The stem with the two blocks and the embedding of the positions.
    pub fn new(conv1: ConvBlock, conv2: ConvBlock, pos_embed: Tensor) -> (out: EncoderStem)
        ensures
            forall|input: TensorId| #[trigger] out.spec_conv1(input) == conv1.spec_conv(input),
            forall|input: TensorId| #[trigger] out.spec_conv2(input) == conv2.spec_conv(input),
            forall|input: TensorId| #[trigger]
                out.spec_embed(input) == LazyOp::Binary(
                    Binary { lhs: input, rhs: pos_embed.id(), op: BinaryOp::Add },
                ),
            forall|graph: &Graph| #[trigger]
                out.held_in(graph) == (conv1.held_in(graph) && conv2.held_in(graph) && graph.held(
                    pos_embed.id(),
                )),
    {
        EncoderStem { conv1, conv2, pos_embed }
    }

    /// Whether node `i` of `graph` exchanges the last two of the three
    /// dimensions of node `input`.
    pub open spec fn swaps(graph: &Graph, i: int, input: int) -> bool {
        &&& 0 <= i < graph.nodes().len()
        &&& graph.nodes()[i].op matches LazyOp::Permute(p)
        &&& p.input.index == input
        &&& p.axes@ == seq![0usize, 2usize, 1usize]
        &&& graph.handles()[i] == 0
    }

    /// The stages of the stem that have been put into `graph` behind the
    /// `n` nodes that were there: the first `added` of the six nodes that
    /// the stem adds to the input `input`. The handles to all of them but
    /// the last of the six have been given up.
    pub open spec fn staged(&self, graph: &Graph, n: int, input: TensorId, added: int) -> bool {
        &&& added >= 2 ==> graph.made_by(n, self.spec_conv1(input), 0) && graph.made_by(
            n + 1,
            LazyOp::Unary(Unary { input: (TensorId { index: n as usize }), op: UnaryOp::Gelu }),
            0,
        )
        &&& added >= 4 ==> graph.made_by(
            n + 2,
            self.spec_conv2((TensorId { index: (n + 1) as usize })),
            0,
        ) && graph.made_by(
            n + 3,
            LazyOp::Unary(
                Unary { input: (TensorId { index: (n + 2) as usize }), op: UnaryOp::Gelu },
            ),
            0,
        )
        &&& added >= 5 ==> Self::swaps(graph, n + 4, n + 3)
        &&& added >= 6 ==> graph.made_by(
            n + 5,
            self.spec_embed((TensorId { index: (n + 4) as usize })),
            1,
        )
    }

    /// Puts the stem into the graph, applied to `input`. The stages are put
    /// one after the other; where one of them cannot be applied, the ones
    /// before it stay in the graph, with no handle to them, and the error is
    /// that of the stage.
    #[verifier::rlimit(50)]
    pub fn schedule(&self, input: &Tensor, graph: &mut Graph) -> (out: Result<Tensor, OperationError>)
        requires
            old(graph).wf(),
            old(graph).held(input.id()),
            self.held_in(old(graph)),
            old(graph).nodes().len() + 6 <= usize::MAX,
        ensures
            match out {
                Ok(t) => {
                    let n = old(graph).nodes().len() as int;
                    &&& final(graph).extends(old(graph), 6)
                    &&& self.staged(final(graph), n, input.id(), 6)
                    &&& t.id().index == n + 5
                },
                Err(e) => {
                    let n = old(graph).nodes().len() as int;
                    let added = final(graph).nodes().len() - n;
                    &&& final(graph).extends(old(graph), added)
                    &&& self.staged(final(graph), n, input.id(), added)
                    &&& if added == 0 {
                        build_result(final(graph).nodes(), self.spec_conv1(input.id())) == Err::<
                            ViewModel,
                            OperationError,
                        >(e)
                    } else if added == 2 {
                        build_result(
                            final(graph).nodes(),
                            self.spec_conv2((TensorId { index: (n + 1) as usize })),
                        ) == Err::<ViewModel, OperationError>(e)
                    } else if added == 4 {
                        exists|p: crate::permute::Permute|
                            p.input.index == n + 3 && p.axes@ == seq![0usize, 2usize, 1usize]
                                && build_result(final(graph).nodes(), LazyOp::Permute(p)) == Err::<
                                ViewModel,
                                OperationError,
                            >(e)
                    } else {
                        added == 5 && build_result(
                            final(graph).nodes(),
                            self.spec_embed((TensorId { index: (n + 4) as usize })),
                        ) == Err::<ViewModel, OperationError>(e)
                    }
                },
            },
    {
        let ghost g0 = *graph;
        let ghost n = graph.nodes().len() as int;
        let first = match self.conv1.schedule(input, graph) {
            Ok(first) => first,
            Err(e) => {
                proof {
                    assert(graph.grows_from(&g0, n));
                    lemma_grows_extends(&g0, graph);
                }
                return Err(e);
            },
        };
        let ghost g1 = *graph;
        proof {
            lemma_extends_grows(&g0, &g1, 2);
            self.conv2.lemma_held(&g0, &g1);
        }
        let second = stage_conv(&self.conv2, first, graph);
        let ghost g2 = *graph;
        proof {
            lemma_grows_on(&g0, &g1, &g2, n, n + 1);
        }
        let second = match second {
            Ok(second) => second,
            Err(e) => {
                proof {
                    lemma_grows_extends(&g0, &g2);
                }
                return Err(e);
            },
        };
        let swapped = stage_swap(second, graph);
        let ghost g3 = *graph;
        proof {
            lemma_grows_on(&g0, &g2, &g3, n, n + 3);
        }
        let swapped = match swapped {
            Ok(swapped) => swapped,
            Err(e) => {
                proof {
                    lemma_grows_extends(&g0, &g3);
                }
                return Err(e);
            },
        };
        let embedded = stage_add(swapped, &self.pos_embed, graph);
        proof {
            lemma_grows_on(&g0, &g3, graph, n, n + 4);
            lemma_grows_extends(&g0, graph);
        }
        embedded
    }
}

} // verus!
