//! Resolving a tensor: planning the buffers of the nodes it depends on,
//! compiling them into one batch of dispatches, and marking them computed.
//!
//! The batch is handed out, not run: whoever drives the device uploads the
//! parameter records, encodes the dispatches in their order in one compute
//! pass, submits it, and waits for it.

use vstd::prelude::*;
use crate::compile::{
    compiled_as, node_elem, node_key, node_layout, node_meta, staged, CompiledOp, Executable,
    MAX_DISPATCHES,
};
use crate::error::{DeviceError, OperationError, TensorError};
use crate::gpu_buffer::GPUBuffer;
use crate::graph::{
    gpu_buf, lemma_pipeline_stays, node_ok, pools_asked, pools_extend, slot_ok, src_index, Graph,
    Inner, WgpuDevice,
};
use crate::planner::{
    fault_at, first_fault, inplace_at, lemma_no_fault, lemma_operands_have_buffers,
    lemma_plan_end, plan_ctx, planned_at, planned_storages, planned_upto, pool_extends,
    Allocation,
};
use crate::schedule::{
    execution_order, id_of, lemma_execution_order, lemma_reaches_device, placed_before,
};
use crate::storage::{Device, Storage};
use crate::tensor_id::TensorId;
use crate::uniform::{record_bytes, CpuUniform, UNIFORM_ALIGN};

verus! {

/// Whether the node at place `p` of `order` is dispatched: it is yet to be
/// computed, and it has elements.
pub open spec fn dispatched_at(
    nodes: Seq<Inner>,
    storages: Seq<Option<Storage>>,
    order: Seq<TensorId>,
    p: int,
) -> bool {
    planned_at(storages, order, p) && nodes[order[p].index as int].view@.numel() > 0
}

/// The places before `p` of `order` whose nodes are dispatched, in their
/// order.
pub open spec fn work(
    nodes: Seq<Inner>,
    storages: Seq<Option<Storage>>,
    order: Seq<TensorId>,
    p: int,
) -> Seq<int>
    decreases p,
{
    if p <= 0 {
        Seq::empty()
    } else if dispatched_at(nodes, storages, order, p - 1) {
        work(nodes, storages, order, p - 1).push(p - 1)
    } else {
        work(nodes, storages, order, p - 1)
    }
}

/// Why `root` cannot be resolved, if it cannot: it does not live on a GPU;
/// or one of the nodes it depends on cannot be planned; or there are more
/// dispatches than one batch can hold.
pub open spec fn resolve_fault(
    nodes: Seq<Inner>,
    storages: Seq<Option<Storage>>,
    handles: Seq<usize>,
    root: TensorId,
) -> Option<TensorError> {
    let order = execution_order(nodes, root);
    if nodes[root.index as int].device != Device::GPU {
        Some(TensorError::DeviceError(DeviceError::DeviceNotGpu))
    } else {
        match first_fault(nodes, storages, handles, order, order.len() as int) {
            Some(e) => Some(e),
            None => if work(nodes, storages, order, order.len() as int).len() > MAX_DISPATCHES {
                Some(TensorError::OperationError(OperationError::UniformOverflow))
            } else {
                None
            },
        }
    }
}

/// The parameter records of the first `k` dispatches of a batch, as they
/// stand in the staging area: the record of each dispatch at its aligned
/// offset, with zeros between the records. The dispatches are those of the
/// nodes at the places `places` of `order`.
pub open spec fn records(nodes: Seq<Inner>, order: Seq<TensorId>, places: Seq<int>, k: int) -> Seq<u8>
    decreases k,
{
    if k <= 0 {
        Seq::empty()
    } else {
        staged(
            records(nodes, order, places, k - 1),
            k - 1,
            record_bytes(node_meta(nodes, order[places[k - 1]].index as int)),
        )
    }
}

/// Whether two devices hold the same layouts and pipelines.
pub open spec fn same_pipelines(a: WgpuDevice, b: WgpuDevice) -> bool {
    &&& a.bind_group_layouts@ == b.bind_group_layouts@
    &&& a.pipeline_layouts@ == b.pipeline_layouts@
    &&& a.pipelines@ == b.pipelines@
}

/// Whether `stages` are the states of the layout and pipeline pools while
/// the batch `steps` is compiled: one before each dispatch and one at the
/// end, each got from the one before by asking for the pipeline of the
/// dispatch between them. The dispatches are those of the nodes at the
/// places `places` of `order`.
pub open spec fn pools_staged(
    nodes: Seq<Inner>,
    storages: Seq<Option<Storage>>,
    handles: Seq<usize>,
    order: Seq<TensorId>,
    places: Seq<int>,
    steps: Seq<CompiledOp>,
    stages: Seq<WgpuDevice>,
) -> bool {
    &&& stages.len() == places.len() + 1
    &&& forall|k: int|
        0 <= k < places.len() ==> pools_asked(
            stages[k],
            stages[k + 1],
            (#[trigger] steps[k]).handles,
            node_layout(
                nodes,
                order[places[k]].index as int,
                inplace_at(nodes, storages, handles, order, places[k]),
            ),
            node_key(
                nodes,
                order[places[k]].index as int,
                inplace_at(nodes, storages, handles, order, places[k]),
            ),
            node_elem(nodes, order[places[k]].index as int),
        )
}

/// The device buffers of the slots `storages`, node by node.
pub open spec fn buffers_of(storages: Seq<Option<Storage>>) -> Seq<Option<GPUBuffer>> {
    Seq::new(storages.len(), |v: int| gpu_buf(storages[v]))
}

/// Every place of a list of work is a place of the order, the places
/// ascend, and the node at each of them is dispatched.
pub proof fn lemma_work(
    nodes: Seq<Inner>,
    storages: Seq<Option<Storage>>,
    order: Seq<TensorId>,
    p: int,
)
    requires
        0 <= p <= order.len(),
    ensures
        work(nodes, storages, order, p).len() <= p,
        forall|k: int|
            0 <= k < work(nodes, storages, order, p).len() ==> 0 <= #[trigger] work(
                nodes,
                storages,
                order,
                p,
            )[k] < p && dispatched_at(nodes, storages, order, work(nodes, storages, order, p)[k]),
        forall|q: int|
            0 <= q < p && dispatched_at(nodes, storages, order, q) ==> work(
                nodes,
                storages,
                order,
                p,
            ).contains(q),
    decreases p,
{
    if p > 0 {
        lemma_work(nodes, storages, order, p - 1);
        let prev = work(nodes, storages, order, p - 1);
        let cur = work(nodes, storages, order, p);
        assert forall|q: int| 0 <= q < p && dispatched_at(nodes, storages, order, q) implies cur.contains(
            q,
        ) by {
            if q < p - 1 {
                let k = choose|k: int| 0 <= k < prev.len() && prev[k] == q;
                assert(cur[k] == q);
            } else {
                assert(cur[prev.len() as int] == q);
            }
        }
    }
}

/// A tensor without elements fills no bytes and is not dispatched.
pub proof fn lemma_zero_size(
    nodes: Seq<Inner>,
    storages: Seq<Option<Storage>>,
    order: Seq<TensorId>,
    p: int,
)
    requires
        0 <= p < order.len(),
        nodes[order[p].index as int].view@.numel() == 0,
    ensures
        nodes[order[p].index as int].view@.num_bytes() == 0,
        !dispatched_at(nodes, storages, order, p),
{
}

/// Where every node of an order has storage, nothing is planned and nothing
/// is dispatched: resolving is free of faults and of work.
pub proof fn lemma_resolved_has_no_work(
    nodes: Seq<Inner>,
    storages: Seq<Option<Storage>>,
    handles: Seq<usize>,
    order: Seq<TensorId>,
    p: int,
)
    requires
        0 <= p <= order.len(),
        forall|q: int| 0 <= q < order.len() ==> storages[(#[trigger] order[q]).index as int] is Some,
    ensures
        first_fault(nodes, storages, handles, order, p) is None,
        work(nodes, storages, order, p) == Seq::<int>::empty(),
    decreases p,
{
    if p > 0 {
        lemma_resolved_has_no_work(nodes, storages, handles, order, p - 1);
        assert(order[p - 1].index >= 0);
        assert(!planned_at(storages, order, p - 1));
    }
}

/// Where none of the nodes of an order that are yet to be computed has
/// elements, and none of them can only work in place, nothing stands in the
/// way of planning them, and nothing is dispatched.
pub proof fn lemma_nothing_to_dispatch(
    nodes: Seq<Inner>,
    storages: Seq<Option<Storage>>,
    handles: Seq<usize>,
    order: Seq<TensorId>,
    p: int,
)
    requires
        0 <= p <= order.len(),
        forall|q: int|
            0 <= q < order.len() && #[trigger] planned_at(storages, order, q) ==> nodes[order[q].index as int].view@.numel()
                == 0 && !nodes[order[q].index as int].op.spec_requires_inplace(),
    ensures
        first_fault(nodes, storages, handles, order, p) is None,
        work(nodes, storages, order, p) == Seq::<int>::empty(),
    decreases p,
{
    if p > 0 {
        lemma_nothing_to_dispatch(nodes, storages, handles, order, p - 1);
        if planned_at(storages, order, p - 1) {
            assert(nodes[order[p - 1].index as int].view@.num_bytes() == 0);
            assert(crate::gpu_buffer::rounded_size(0) <= usize::MAX);
        }
    }
}

/// A tensor without elements is resolved without work. Where `root` lives
/// on a GPU, and the nodes it depends on that are yet to be computed, itself
/// among them, have no elements and need not work in place, resolving
/// `root` succeeds and dispatches nothing; and the storage that `root` has
/// afterwards fills no bytes.
pub proof fn lemma_zero_size_resolves(
    nodes: Seq<Inner>,
    storages: Seq<Option<Storage>>,
    handles: Seq<usize>,
    root: TensorId,
)
    requires
        nodes[root.index as int].device == Device::GPU,
        nodes[root.index as int].view@.numel() == 0,
        forall|q: int|
            0 <= q < execution_order(nodes, root).len() && #[trigger] planned_at(
                storages,
                execution_order(nodes, root),
                q,
            ) ==> nodes[execution_order(nodes, root)[q].index as int].view@.numel() == 0
                && !nodes[execution_order(nodes, root)[q].index as int].op.spec_requires_inplace(),
    ensures
        resolve_fault(nodes, storages, handles, root) is None,
        work(
            nodes,
            storages,
            execution_order(nodes, root),
            execution_order(nodes, root).len() as int,
        ) == Seq::<int>::empty(),
        nodes[root.index as int].view@.num_bytes() == 0,
{
    let order = execution_order(nodes, root);
    lemma_nothing_to_dispatch(nodes, storages, handles, order, order.len() as int);
}

/// Resolving a second time is free: in a graph that has been resolved for
/// `root`, resolving `root` again has no fault and no work, so that it
/// leaves the graph as it is and hands out an empty batch.
pub proof fn lemma_resolve_twice(before: &Graph, after: &Graph, root: TensorId, exec: Executable)
    requires
        before.wf(),
        before.has(root),
        after.resolved_from(before, execution_order(before.nodes(), root), exec),
        after.nodes()[root.index as int].device == Device::GPU,
    ensures
        resolve_fault(after.nodes(), after.storages(), after.handles(), root) is None,
        work(
            after.nodes(),
            after.storages(),
            execution_order(after.nodes(), root),
            execution_order(after.nodes(), root).len() as int,
        ) == Seq::<int>::empty(),
        forall|p: int|
            0 <= p < execution_order(after.nodes(), root).len() ==> !#[trigger] planned_at(
                after.storages(),
                execution_order(after.nodes(), root),
                p,
            ),
{
    let order = execution_order(after.nodes(), root);
    lemma_resolved_has_no_work(
        after.nodes(),
        after.storages(),
        after.handles(),
        order,
        order.len() as int,
    );
}

impl Graph {
    /// What resolving does to a graph that was `before`, for the order of
    /// computation `order`: every node of the order has storage; a node that
    /// had storage keeps it, and a node outside the order stays as it was;
    /// the new storages are the buffers of a plan; the batch `exec` holds
    /// one dispatch for every node of the order that was yet to be computed
    /// and has elements, in the order of the nodes.
    pub open spec fn resolved_from(
        &self,
        before: &Graph,
        order: Seq<TensorId>,
        exec: Executable,
    ) -> bool {
        let nodes = before.nodes();
        let places = work(nodes, before.storages(), order, order.len() as int);
        &&& self.wf()
        &&& self.nodes() == nodes
        &&& self.handles() == before.handles()
        &&& self.uploads() == before.uploads()
        &&& self.storages().len() == nodes.len()
        &&& forall|v: int|
            0 <= v < nodes.len() && before.storages()[v] is Some ==> #[trigger] self.storages()[v]
                == before.storages()[v]
        &&& forall|p: int|
            0 <= p < order.len() ==> self.storages()[(#[trigger] order[p]).index as int] is Some
        &&& forall|v: int|
            0 <= v < nodes.len() && before.storages()[v] is None && !order.contains(id_of(v))
                ==> (#[trigger] self.storages()[v]) is None
        &&& planned_upto(
            nodes,
            before.storages(),
            before.handles(),
            order,
            order.len() as int,
            buffers_of(self.storages()),
            self.pool(),
        )
        &&& pool_extends(before.pool(), self.pool())
        &&& self.gpu().buffers.spec_soft_cap() == before.gpu().buffers.spec_soft_cap()
        &&& pools_extend(before.gpu(), self.gpu())
        &&& (forall|p: int|
            0 <= p < order.len() ==> !#[trigger] planned_at(before.storages(), order, p))
            ==> self.pool() == before.pool() && self.storages() == before.storages()
        &&& exec.steps@.len() == places.len()
        &&& exec.uniform@ == records(nodes, order, places, places.len() as int)
        &&& exists|stages: Seq<WgpuDevice>|
            same_pipelines(stages[0], before.gpu()) && same_pipelines(stages.last(), self.gpu())
                && #[trigger] pools_staged(
                nodes,
                before.storages(),
                before.handles(),
                order,
                places,
                exec.steps@,
                stages,
            )
        &&& forall|k: int|
            0 <= k < places.len() ==> compiled_as(
                self.gpu(),
                nodes,
                buffers_of(self.storages()),
                exec.uniform@,
                #[trigger] exec.steps@[k],
                order[places[k]].index as int,
                inplace_at(nodes, before.storages(), before.handles(), order, places[k]),
                k,
            )
    }

    /// The places of `order` whose nodes are dispatched, in their order.
    fn places_of_work(&self, order: &Vec<TensorId>) -> (out: Vec<usize>)
        requires
            self.wf(),
            crate::schedule::ids_valid(self.nodes(), order@),
        ensures
            out@.len() == work(self.nodes(), self.storages(), order@, order@.len() as int).len(),
            forall|k: int|
                0 <= k < out@.len() ==> #[trigger] out@[k] == work(
                    self.nodes(),
                    self.storages(),
                    order@,
                    order@.len() as int,
                )[k],
    {
        let ghost nodes = self.nodes();
        let ghost storages = self.storages();
        let len = order.len();
        let mut out: Vec<usize> = Vec::new();
        let mut p: usize = 0;
        while p < len
            invariant
                p <= len,
                len == order@.len(),
                nodes == self.nodes(),
                storages == self.storages(),
                self.wf(),
                crate::schedule::ids_valid(nodes, order@),
                out@.len() == work(nodes, storages, order@, p as int).len(),
                forall|k: int|
                    0 <= k < out@.len() ==> #[trigger] out@[k] == work(
                        nodes,
                        storages,
                        order@,
                        p as int,
                    )[k],
            decreases len - p,
        {
            let id = order[p];
            proof {
                assert(node_ok(nodes, id.index as int));
            }
            if !self.resolved(id) && self.node(id).view.numel() > 0 {
                out.push(p);
            }
            p += 1;
        }
        out
    }

    /// Resolves `root`: plans a buffer for every node that `root` depends on
    /// and that is yet to be computed, compiles those that have elements
    /// into a batch of dispatches, and gives every one of them its storage.
    /// The batch computes the nodes when it is run in its order. Where
    /// resolving fails, the graph stays as it was.
    #[verifier::rlimit(50)]
    pub fn resolve(&mut self, root: TensorId) -> (out: Result<Executable, TensorError>)
        requires
            old(self).wf(),
            old(self).has(root),
        ensures
            match out {
                Ok(exec) => resolve_fault(
                    old(self).nodes(),
                    old(self).storages(),
                    old(self).handles(),
                    root,
                ) is None && final(self).resolved_from(
                    old(self),
                    execution_order(old(self).nodes(), root),
                    exec,
                ),
                Err(e) => resolve_fault(
                    old(self).nodes(),
                    old(self).storages(),
                    old(self).handles(),
                    root,
                ) == Some(e) && final(self).same_as(old(self)),
            },
    {
        let ghost nodes = self.nodes();
        let ghost storages = self.storages();
        let ghost handles = self.handles();
        let ghost gpu0 = self.gpu();
        let n = self.len();
        if !self.node(root).device.is_gpu() {
            return Err(TensorError::DeviceError(DeviceError::DeviceNotGpu));
        }
        let order = self.execution_order(root);
        let len = order.len();
        proof {
            lemma_execution_order(nodes, root);
            assert forall|p: int| 0 <= p < order@.len() implies (#[trigger] nodes[order@[p].index as int]).device
                == Device::GPU by {
                assert(order@.contains(order@[p]));
                lemma_reaches_device(nodes, root.index as int, order@[p].index as int);
            }
            assert(plan_ctx(nodes, storages, handles, order@));
        }
        let plan = match self.allocate_cfg(&order) {
            Ok(plan) => plan,
            Err(e) => {
                return Err(e);
            },
        };
        let places = self.places_of_work(&order);
        if places.len() > MAX_DISPATCHES {
            return Err(TensorError::OperationError(OperationError::UniformOverflow));
        }
        let ghost jobs = work(nodes, storages, order@, len as int);
        proof {
            lemma_work(nodes, storages, order@, len as int);
        }
        let mut uniform = CpuUniform::new();
        let mut steps: Vec<CompiledOp> = Vec::new();
        let ghost mut stages: Seq<WgpuDevice> = seq![gpu0];
        let mut k: usize = 0;
        while k < places.len()
            invariant
                k <= places@.len(),
                stages.len() == k + 1,
                stages[0] == gpu0,
                stages[k as int] == self.gpu(),
                forall|j: int|
                    0 <= j < k ==> pools_asked(
                        stages[j],
                        stages[j + 1],
                        (#[trigger] steps@[j]).handles,
                        node_layout(
                            nodes,
                            order@[jobs[j]].index as int,
                            inplace_at(nodes, storages, handles, order@, jobs[j]),
                        ),
                        node_key(
                            nodes,
                            order@[jobs[j]].index as int,
                            inplace_at(nodes, storages, handles, order@, jobs[j]),
                        ),
                        node_elem(nodes, order@[jobs[j]].index as int),
                    ),
                len == order@.len(),
                n == nodes.len(),
                self.wf(),
                self.nodes() == nodes,
                self.storages() == storages,
                self.handles() == handles,
                self.uploads() == old(self).uploads(),
                self.gpu().buffers == gpu0.buffers,
                pools_extend(gpu0, self.gpu()),
                plan_ctx(nodes, storages, handles, order@),
                first_fault(nodes, storages, handles, order@, len as int) is None,
                old(self).planned(order@, plan),
                storages == old(self).storages(),
                nodes == old(self).nodes(),
                handles == old(self).handles(),
                jobs == work(nodes, storages, order@, len as int),
                places@.len() == jobs.len(),
                places@.len() <= MAX_DISPATCHES,
                forall|j: int| 0 <= j < places@.len() ==> #[trigger] places@[j] == jobs[j],
                forall|j: int|
                    0 <= j < jobs.len() ==> 0 <= #[trigger] jobs[j] < len && dispatched_at(
                        nodes,
                        storages,
                        order@,
                        jobs[j],
                    ),
                uniform.wf(),
                uniform.next_offset() == UNIFORM_ALIGN * k,
                uniform@ == records(nodes, order@, jobs, k as int),
                steps@.len() == k,
                forall|j: int|
                    0 <= j < k ==> compiled_as(
                        self.gpu(),
                        nodes,
                        plan.bufs@,
                        uniform@,
                        #[trigger] steps@[j],
                        order@[jobs[j]].index as int,
                        inplace_at(nodes, storages, handles, order@, jobs[j]),
                        j,
                    ),
            decreases places@.len() - k,
        {
            let p = places[k];
            let id = order[p];
            let inplace = plan.inplace[p];
            let ghost gpu1 = self.gpu();
            let ghost uniform1 = uniform@;
            let ghost steps1 = steps@;
            proof {
                assert(places@[k as int] == jobs[k as int]);
                assert(dispatched_at(nodes, storages, order@, jobs[k as int]));
                assert(planned_at(storages, order@, p as int));
                assert(slot_ok(nodes, storages, id.index as int));
                lemma_no_fault(nodes, storages, handles, order@, len as int, p as int);
                assert(fault_at(nodes, storages, handles, order@, p as int) is None);
                assert(plan.inplace@[p as int] == (planned_at(storages, order@, p as int)
                    && inplace_at(nodes, storages, handles, order@, p as int)));
                assert forall|m: int|
                    0 <= m < nodes[id.index as int].op.spec_srcs().len() implies plan.bufs@[src_index(
                    nodes,
                    id.index as int,
                    m,
                )] is Some by {
                    lemma_operands_have_buffers(
                        nodes,
                        storages,
                        handles,
                        order@,
                        plan.bufs@,
                        plan.pool@,
                        p as int,
                        m,
                    );
                }
            }
            let step = self.compile_node(id, inplace, &plan.bufs, &mut uniform, k);
            steps.push(step);
            proof {
                let ghost_before = stages;
                stages = stages.push(self.gpu());
                assert(order@[jobs[k as int]] == id);
                assert forall|j: int| 0 <= j < k + 1 implies pools_asked(
                    stages[j],
                    stages[j + 1],
                    (#[trigger] steps@[j]).handles,
                    node_layout(
                        nodes,
                        order@[jobs[j]].index as int,
                        inplace_at(nodes, storages, handles, order@, jobs[j]),
                    ),
                    node_key(
                        nodes,
                        order@[jobs[j]].index as int,
                        inplace_at(nodes, storages, handles, order@, jobs[j]),
                    ),
                    node_elem(nodes, order@[jobs[j]].index as int),
                ) by {
                    if j < k {
                        assert(steps@[j] == steps1[j]);
                        assert(stages[j] == ghost_before[j]);
                        assert(stages[j + 1] == ghost_before[j + 1]);
                    }
                }
                assert(uniform@ == records(nodes, order@, jobs, k + 1));
                assert forall|j: int| 0 <= j < k + 1 implies compiled_as(
                    self.gpu(),
                    nodes,
                    plan.bufs@,
                    uniform@,
                    #[trigger] steps@[j],
                    order@[jobs[j]].index as int,
                    inplace_at(nodes, storages, handles, order@, jobs[j]),
                    j,
                ) by {
                    if j < k {
                        let old_step = steps1[j];
                        assert(steps@[j] == old_step);
                        assert(compiled_as(
                            gpu1,
                            nodes,
                            plan.bufs@,
                            uniform1,
                            old_step,
                            order@[jobs[j]].index as int,
                            inplace_at(nodes, storages, handles, order@, jobs[j]),
                            j,
                        ));
                        lemma_pipeline_stays(
                            gpu1,
                            self.gpu(),
                            old_step.handles,
                            crate::compile::node_layout(
                                nodes,
                                order@[jobs[j]].index as int,
                                old_step.inplace,
                            ),
                            crate::compile::node_key(
                                nodes,
                                order@[jobs[j]].index as int,
                                old_step.inplace,
                            ),
                            crate::compile::node_elem(nodes, order@[jobs[j]].index as int),
                        );
                        let record = crate::uniform::record_bytes(
                            crate::compile::node_meta(nodes, order@[jobs[j]].index as int),
                        );
                        let at = old_step.uniform_offset as int;
                        assert(uniform@.subrange(at, at + record.len()) =~= uniform1.subrange(
                            at,
                            at + record.len(),
                        )) by {
                            assert forall|b: int| at <= b < at + record.len() implies uniform@[b]
                                == uniform1[b] by {
                                assert(uniform@.take(uniform1.len() as int)[b] == uniform@[b]);
                            }
                        }
                    }
                }
                assert forall|a: int| 0 <= a < gpu0.bind_group_layouts@.len() implies #[trigger] self.gpu().bind_group_layouts@[a]
                    == gpu0.bind_group_layouts@[a] by {
                    assert(gpu1.bind_group_layouts@[a] == gpu0.bind_group_layouts@[a]);
                }
                assert forall|a: int| 0 <= a < gpu0.pipeline_layouts@.len() implies #[trigger] self.gpu().pipeline_layouts@[a]
                    == gpu0.pipeline_layouts@[a] by {
                    assert(gpu1.pipeline_layouts@[a] == gpu0.pipeline_layouts@[a]);
                }
                assert forall|a: int| 0 <= a < gpu0.pipelines@.len() implies #[trigger] self.gpu().pipelines@[a]
                    == gpu0.pipelines@[a] by {
                    assert(gpu1.pipelines@[a] == gpu0.pipelines@[a]);
                }
            }
            k += 1;
        }
        let ghost gpu2 = self.gpu();
        proof {
            assert(pools_staged(nodes, storages, handles, order@, jobs, steps@, stages));
            assert(same_pipelines(stages[0], gpu0));
            assert(same_pipelines(stages.last(), gpu2));
        }
        let ghost plan_bufs = plan.bufs@;
        let Allocation { bufs, inplace: _, pool } = plan;
        let ghost planned_pool = pool@;
        let ghost cap = pool.spec_soft_cap() as nat;
        self.set_pool(pool);
        let ghost final_pool = self.pool();
        proof {
            crate::planner::lemma_plan_trim(
                nodes,
                storages,
                handles,
                order@,
                len as int,
                plan_bufs,
                planned_pool,
                cap,
                final_pool,
            );
            assert forall|i: int| 0 <= i < old(self).pool().len() implies (#[trigger] final_pool[i]).desc
                == old(self).pool()[i].desc by {
                assert(planned_pool[i].desc == old(self).pool()[i].desc);
            }
        }
        let mut p: usize = 0;
        while p < len
            invariant
                p <= len,
                len == order@.len(),
                n == nodes.len(),
                self.nodes() == nodes,
                self.handles() == handles,
                self.uploads() == old(self).uploads(),
                self.pool() == final_pool,
                self.gpu().buffers.within_cap(),
                self.gpu().buffers.spec_soft_cap() == gpu0.buffers.spec_soft_cap(),
                self.gpu().bind_group_layouts == gpu2.bind_group_layouts,
                self.gpu().pipeline_layouts == gpu2.pipeline_layouts,
                self.gpu().pipelines == gpu2.pipelines,
                plan_ctx(nodes, storages, handles, order@),
                planned_upto(nodes, storages, handles, order@, len as int, bufs@, final_pool),
                self.storages().len() == n,
                forall|v: int|
                    0 <= v < n ==> #[trigger] self.storages()[v] == if storages[v] is None
                        && placed_before(order@, p as int, v) {
                        planned_storages(storages, bufs@)[v]
                    } else {
                        storages[v]
                    },
            decreases len - p,
        {
            let id = order[p];
            let ghost cur = self.storages();
            let fresh = !self.resolved(id);
            if fresh {
                match bufs[id.index] {
                    Some(b) => {
                        self.set_storage(id, Storage::GPU(b));
                    },
                    None => {
                        proof {
                            assert(placed_before(order@, len as int, id.index as int));
                        }
                        vstd::pervasive::unreached()
                    },
                }
            }
            proof {
                assert forall|v: int| 0 <= v < n implies #[trigger] self.storages()[v]
                    == if storages[v] is None && placed_before(order@, p + 1, v) {
                    planned_storages(storages, bufs@)[v]
                } else {
                    storages[v]
                } by {
                    if placed_before(order@, p + 1, v) && !placed_before(order@, p as int, v) {
                        let q = choose|q: int| 0 <= q < p + 1 && (#[trigger] order@[q]).index == v;
                        assert(q == p);
                    }
                    if placed_before(order@, p as int, v) {
                        let q = choose|q: int| 0 <= q < p && (#[trigger] order@[q]).index == v;
                        assert(placed_before(order@, p + 1, v));
                    }
                    if v == id.index {
                        assert(order@[p as int].index == v);
                        assert(placed_before(order@, p + 1, v));
                        if storages[v] is None && placed_before(order@, p as int, v) {
                            let q = choose|q: int| 0 <= q < p && (#[trigger] order@[q]).index == v;
                            crate::planner::lemma_one_place(nodes, order@, p as int, q);
                        }
                    }
                }
            }
            p += 1;
        }
        proof {
            let post = planned_storages(storages, bufs@);
            lemma_plan_end(nodes, storages, handles, order@, bufs@, final_pool);
            assert(self.storages() =~= post) by {
                assert forall|v: int| 0 <= v < n implies self.storages()[v] == post[v] by {
                    if storages[v] is None && !placed_before(order@, len as int, v) {
                        assert(bufs@[v] is None);
                    }
                }
            }
            assert(buffers_of(self.storages()) =~= bufs@);
            assert forall|i: int| 0 <= i < nodes.len() implies #[trigger] node_ok(
                self.nodes(),
                i,
            ) by {
                assert(node_ok(old(self).nodes(), i));
            }
            assert forall|v: int|
                0 <= v < nodes.len() && storages[v] is None && !order@.contains(id_of(v)) implies (
            #[trigger] self.storages()[v]) is None by {
                if placed_before(order@, len as int, v) {
                    let q = choose|q: int| 0 <= q < len && (#[trigger] order@[q]).index == v;
                    assert(order@[q] == id_of(v));
                }
            }
            if forall|q: int| 0 <= q < order@.len() ==> !#[trigger] planned_at(storages, order@, q) {
                assert(self.storages() =~= storages) by {
                    assert forall|v: int| 0 <= v < n implies self.storages()[v] == storages[v] by {
                        if storages[v] is None && placed_before(order@, len as int, v) {
                            let q = choose|q: int|
                                0 <= q < len && (#[trigger] order@[q]).index == v;
                            assert(planned_at(storages, order@, q));
                        }
                    }
                }
            }
            assert(pools_extend(gpu0, self.gpu()));
            assert forall|j: int| 0 <= j < jobs.len() implies compiled_as(
                self.gpu(),
                nodes,
                buffers_of(self.storages()),
                uniform@,
                #[trigger] steps@[j],
                order@[jobs[j]].index as int,
                inplace_at(nodes, storages, handles, order@, jobs[j]),
                j,
            ) by {
                assert(compiled_as(
                    gpu2,
                    nodes,
                    bufs@,
                    uniform@,
                    steps@[j],
                    order@[jobs[j]].index as int,
                    inplace_at(nodes, storages, handles, order@, jobs[j]),
                    j,
                ));
            }
            assert(same_pipelines(stages[0], old(self).gpu()));
            assert(same_pipelines(stages.last(), self.gpu()));
            assert(pools_staged(nodes, storages, handles, order@, jobs, steps@, stages));
        }
        let exec = Executable { steps, uniform: uniform.into_bytes() };
        assert(self.resolved_from(old(self), order@, exec));
        Ok(exec)
    }
}

} // verus!
