use rand::rngs::StdRng;
use rand::{Rng, SeedableRng};
use ratchet::dtype::DType;
use ratchet::error::{DeviceError, OperationError, TensorError};
use ratchet::gpu_buffer::BufferHandle;
use ratchet::graph::Graph;
use ratchet::layout::BindingType;
use ratchet::lazy_op::LazyOp;
use ratchet::shape::Shape;
use ratchet::storage::{Device, Storage};
use ratchet::tensor::{Tensor, Transfer};
use ratchet::tensor_id::TensorId;
use ratchet::workgroup::WorkgroupCount;

fn floats(graph: &mut Graph, data: &[f32], dims: Vec<usize>, device: Device) -> Tensor {
    let bytes: &[u8] = bytemuck::cast_slice(data);
    Tensor::from_data(bytes, DType::F32, Shape::new(dims), device, graph)
}

fn randn(graph: &mut Graph, seed: u64, dims: Vec<usize>, device: Device) -> (Vec<f32>, Tensor) {
    let mut rng = StdRng::seed_from_u64(seed);
    let count: usize = dims.iter().product();
    let data: Vec<f32> = (0..count).map(|_| rng.gen_range(-1.0f32..1.0f32)).collect();
    let tensor = floats(graph, &data, dims, device);
    (data, tensor)
}

fn buffer_of(graph: &Graph, id: TensorId) -> BufferHandle {
    match graph.storage(id) {
        Some(Storage::GPU(buffer)) => buffer.inner,
        _ => panic!("the node has no device buffer"),
    }
}

fn words(bytes: &[u8]) -> Vec<u32> {
    bytes
        .chunks(4)
        .map(|c| u32::from_le_bytes([c[0], c[1], c[2], c[3]]))
        .collect()
}

fn as_floats(bytes: &[u8]) -> Vec<f32> {
    bytes
        .chunks(4)
        .map(|c| f32::from_le_bytes([c[0], c[1], c[2], c[3]]))
        .collect()
}

fn kernel_key(graph: &Graph, step: &ratchet::compile::CompiledOp) -> String {
    graph
        .device()
        .pipelines
        .get(step.handles.pipeline)
        .unwrap()
        .kernel_key()
        .to_string()
}

fn done(transfer: Transfer) -> Tensor {
    match transfer {
        Transfer::Done(tensor) => tensor,
        Transfer::Pending(_) => panic!("the move is not done"),
    }
}

#[test]
fn test_pyo3() {
    let mut graph = Graph::new();
    let (a_data, a) = randn(&mut graph, 1, vec![256, 256], Device::CPU);
    let (b_data, b) = randn(&mut graph, 2, vec![256, 256], Device::CPU);
    let a_gpu = done(a.to(Device::GPU, &mut graph).unwrap());
    let b_gpu = done(b.to(Device::GPU, &mut graph).unwrap());
    let c_gpu = a_gpu.matmul(&b_gpu, &mut graph).unwrap();
    assert_eq!(c_gpu.shape(&graph).to_vec(), vec![256, 256]);
    assert_eq!(c_gpu.dt(&graph), DType::F32);
    assert_eq!(c_gpu.device(&graph), Device::GPU);
    assert!(!c_gpu.resolved(&graph));
    let exec = c_gpu.resolve(&mut graph).unwrap();
    assert!(c_gpu.resolved(&graph));

    // one dispatch over 256 * 256 elements, 64 to a workgroup
    assert_eq!(exec.steps.len(), 1);
    let step = &exec.steps[0];
    assert_eq!(step.node, c_gpu.id());
    assert!(!step.inplace);
    assert_eq!(step.workgroup_count, WorkgroupCount::new(1024, 1, 1));
    assert_eq!(kernel_key(&graph, step), "matmul_vec4");
    assert_eq!(
        step.buffers,
        vec![
            buffer_of(&graph, a_gpu.id()),
            buffer_of(&graph, b_gpu.id()),
            buffer_of(&graph, c_gpu.id())
        ]
    );
    assert_eq!(
        words(&exec.uniform),
        vec![
            1, 1, 256, 256, // lhs
            1, 1, 256, 256, // rhs
            1, 1, 256, 256, // product
            65536, 65536, 256, 1, // strides of the product
            256, 0, 0, 0, // inner extent
        ]
    );

    // the operands go to the device as they are on the host
    let uploads = graph.take_uploads();
    assert_eq!(uploads.len(), 2);
    assert_eq!(uploads[0].buffer, buffer_of(&graph, a_gpu.id()));
    assert_eq!(uploads[0].data.as_bytes(), bytemuck::cast_slice::<f32, u8>(&a_data));
    assert_eq!(uploads[1].buffer, buffer_of(&graph, b_gpu.id()));
    assert_eq!(uploads[1].data.as_bytes(), bytemuck::cast_slice::<f32, u8>(&b_data));

    // the product comes back to the host through a request to read its buffer
    match c_gpu.to(Device::CPU, &mut graph).unwrap() {
        Transfer::Pending(request) => {
            assert_eq!(request.source, c_gpu.id());
            assert_eq!(request.buffer.inner, buffer_of(&graph, c_gpu.id()));
            assert_eq!(request.buffer.size, 256 * 256 * 4);
        }
        Transfer::Done(_) => panic!("a device tensor cannot be on the host without a copy"),
    }
}

#[test]
fn data_goes_to_the_device_and_back() {
    let mut graph = Graph::new();
    let x = floats(&mut graph, &[1.0, 2.0, 3.0], vec![3], Device::CPU);
    let on_device = done(x.to(Device::GPU, &mut graph).unwrap());
    assert_ne!(on_device.id(), x.id());
    assert_eq!(on_device.device(&graph), Device::GPU);
    assert!(on_device.resolved(&graph));
    assert!(matches!(on_device.op(&graph), LazyOp::Const));

    // what the device is given
    let uploads = graph.take_uploads();
    assert_eq!(uploads.len(), 1);
    assert_eq!(uploads[0].buffer, buffer_of(&graph, on_device.id()));
    let sent = uploads[0].data.as_bytes().to_vec();
    assert_eq!(sent, bytemuck::cast_slice::<f32, u8>(&[1.0f32, 2.0, 3.0]));

    // what is asked of the device, and what comes of its answer
    let request = match on_device.to(Device::CPU, &mut graph).unwrap() {
        Transfer::Pending(request) => request,
        Transfer::Done(_) => panic!("a device tensor cannot be on the host without a copy"),
    };
    assert_eq!(request.buffer.inner, uploads[0].buffer);
    let back = Tensor::from_readback(&request, &sent, &mut graph).unwrap();
    assert_eq!(back.device(&graph), Device::CPU);
    assert_eq!(back.shape(&graph).to_vec(), vec![3]);
    let bytes = match back.storage(&graph) {
        Some(Storage::CPU(block)) => block.as_bytes().to_vec(),
        _ => panic!("the tensor is not on the host"),
    };
    let values = as_floats(&bytes);
    assert_eq!(values, vec![1.0, 2.0, 3.0]);
}

#[test]
fn from_data_on_the_device_comes_back_as_it_went() {
    let mut graph = Graph::new();
    let x = floats(&mut graph, &[1.0, 2.0, 3.0], vec![3], Device::GPU);
    let uploads = graph.take_uploads();
    assert_eq!(uploads.len(), 1);
    let request = match x.to(Device::CPU, &mut graph).unwrap() {
        Transfer::Pending(request) => request,
        Transfer::Done(_) => panic!("a device tensor cannot be on the host without a copy"),
    };
    assert_eq!(request.buffer.inner, uploads[0].buffer);
    let back = Tensor::from_readback(&request, uploads[0].data.as_bytes(), &mut graph).unwrap();
    let values: Vec<f32> = match back.storage(&graph) {
        Some(Storage::CPU(block)) => as_floats(block.as_bytes()),
        _ => panic!("the tensor is not on the host"),
    };
    assert_eq!(values, vec![1.0, 2.0, 3.0]);
}

#[test]
fn an_answer_of_the_wrong_size_is_a_transfer_error() {
    let mut graph = Graph::new();
    let x = floats(&mut graph, &[1.0, 2.0, 3.0], vec![3], Device::GPU);
    let request = match x.to(Device::CPU, &mut graph).unwrap() {
        Transfer::Pending(request) => request,
        Transfer::Done(_) => panic!("a device tensor cannot be on the host without a copy"),
    };
    let nodes = graph.len();
    assert_eq!(
        Tensor::from_readback(&request, &[0u8; 11], &mut graph).unwrap_err(),
        TensorError::TransferError
    );
    let mut forged = request;
    forged.buffer.inner = BufferHandle { index: 7 };
    assert_eq!(
        Tensor::from_readback(&forged, &[0u8; 12], &mut graph).unwrap_err(),
        TensorError::TransferError
    );
    assert_eq!(graph.len(), nodes);
    assert!(Tensor::from_readback(&request, &[0u8; 12], &mut graph).is_ok());
}

#[test]
fn moving_to_the_same_device_is_the_identity() {
    let mut graph = Graph::new();
    let x = floats(&mut graph, &[1.0, 2.0], vec![2], Device::CPU);
    let same = done(x.to(Device::CPU, &mut graph).unwrap());
    assert_eq!(same.id(), x.id());
    assert_eq!(graph.len(), 1);
    assert_eq!(graph.handle_count(x.id()), 2);
    let y = floats(&mut graph, &[1.0, 2.0], vec![2], Device::GPU);
    let same = done(y.to(Device::GPU, &mut graph).unwrap());
    assert_eq!(same.id(), y.id());
    // an unresolved tensor is handed back as it is
    let z = y.add(&y, &mut graph).unwrap();
    let same = done(z.to(Device::CPU, &mut graph).unwrap());
    assert_eq!(same.id(), z.id());
    assert_eq!(graph.len(), 3);
}

#[test]
fn add_x_x_reads_one_buffer_twice() {
    let mut graph = Graph::new();
    let x = floats(&mut graph, &[1.0, 2.0, 3.0, 4.0], vec![4], Device::GPU);
    let y = x.add(&x, &mut graph).unwrap();
    let exec = y.resolve(&mut graph).unwrap();
    assert_eq!(exec.steps.len(), 1);
    let step = &exec.steps[0];
    assert!(!step.inplace);
    let hx = buffer_of(&graph, x.id());
    let hy = buffer_of(&graph, y.id());
    assert_ne!(hx, hy);
    assert_eq!(step.buffers, vec![hx, hx, hy]);
    assert_eq!(kernel_key(&graph, step), "add_vec4");
    assert_eq!(step.workgroup_count, WorkgroupCount::new(1, 1, 1));
    assert_eq!(
        words(&exec.uniform),
        vec![1, 1, 1, 4, 1, 1, 1, 4, 4, 4, 4, 1, 4, 0, 0, 0]
    );
}

#[test]
fn gelu_of_add_is_one_batch_of_two_dispatches() {
    let mut graph = Graph::new();
    let a = floats(&mut graph, &[1., 2., 3., 4., 5., 6.], vec![2, 3], Device::GPU);
    let b = floats(&mut graph, &[6., 5., 4., 3., 2., 1.], vec![2, 3], Device::GPU);
    let sum = a.add(&b, &mut graph).unwrap();
    let out = sum.gelu(&mut graph).unwrap();
    let sum_id = sum.id();
    sum.release(&mut graph);
    let exec = out.resolve(&mut graph).unwrap();
    assert_eq!(exec.steps.len(), 2);
    assert_eq!(exec.steps[0].node, sum_id);
    assert_eq!(exec.steps[1].node, out.id());
    assert_eq!(kernel_key(&graph, &exec.steps[0]), "add_vec2");
    assert_eq!(exec.steps[0].uniform_offset, 0);
    assert_eq!(exec.steps[1].uniform_offset, 256);
    assert_eq!(exec.uniform.len(), 256 + 4);
    assert_eq!(&exec.uniform[256..], &[6, 0, 0, 0]);
    // nothing needs the sum afterwards: the activation works in place
    assert!(!exec.steps[0].inplace);
    assert!(exec.steps[1].inplace);
    assert_eq!(kernel_key(&graph, &exec.steps[1]), "gelu_inplace_vec2");
    assert_eq!(buffer_of(&graph, out.id()), buffer_of(&graph, sum_id));
    assert_eq!(exec.steps[1].buffers, vec![buffer_of(&graph, sum_id)]);
    let layout = graph
        .device()
        .bind_group_layouts
        .get(exec.steps[1].handles.storage_layout.index)
        .unwrap();
    assert_eq!(layout.entries().to_vec(), vec![BindingType::StorageReadWrite]);
    // both pipelines share the layout of the parameter record
    assert_eq!(
        exec.steps[0].handles.uniform_layout,
        exec.steps[1].handles.uniform_layout
    );
    assert_ne!(exec.steps[0].handles.pipeline, exec.steps[1].handles.pipeline);
}

#[test]
fn a_held_source_is_not_written_over() {
    let mut graph = Graph::new();
    let a = floats(&mut graph, &[1., 2., 3., 4., 5., 6.], vec![2, 3], Device::GPU);
    let b = floats(&mut graph, &[6., 5., 4., 3., 2., 1.], vec![2, 3], Device::GPU);
    let sum = a.add(&b, &mut graph).unwrap();
    let out = sum.gelu(&mut graph).unwrap();
    // `sum` is still held
    let exec = out.resolve(&mut graph).unwrap();
    assert_eq!(exec.steps.len(), 2);
    assert!(!exec.steps[1].inplace);
    assert_eq!(kernel_key(&graph, &exec.steps[1]), "gelu_vec2");
    assert_ne!(buffer_of(&graph, out.id()), buffer_of(&graph, sum.id()));
    assert_eq!(
        exec.steps[1].buffers,
        vec![buffer_of(&graph, sum.id()), buffer_of(&graph, out.id())]
    );
    // the four live tensors have four buffers
    let mut buffers = vec![
        buffer_of(&graph, a.id()),
        buffer_of(&graph, b.id()),
        buffer_of(&graph, sum.id()),
        buffer_of(&graph, out.id()),
    ];
    buffers.sort_by_key(|h| h.index);
    buffers.dedup();
    assert_eq!(buffers.len(), 4);
}

#[test]
fn a_source_with_another_reader_is_not_written_over() {
    let mut graph = Graph::new();
    let a = floats(&mut graph, &[1., 2., 3., 4.], vec![4], Device::GPU);
    let t = a.gelu(&mut graph).unwrap();
    let u = t.gelu(&mut graph).unwrap();
    let v = t.add(&u, &mut graph).unwrap();
    let (t_id, u_id) = (t.id(), u.id());
    t.release(&mut graph);
    u.release(&mut graph);
    let exec = v.resolve(&mut graph).unwrap();
    assert_eq!(exec.steps.len(), 3);
    // `t` is read again by the sum: `u` must not write over it
    assert!(!exec.steps[1].inplace);
    assert_ne!(buffer_of(&graph, u_id), buffer_of(&graph, t_id));
    // the sum is the last reader of `t`, its first operand
    assert!(exec.steps[2].inplace);
    assert_eq!(buffer_of(&graph, v.id()), buffer_of(&graph, t_id));
    assert_eq!(
        exec.steps[2].buffers,
        vec![buffer_of(&graph, t_id), buffer_of(&graph, u_id)]
    );
}

#[test]
fn freed_buffers_are_used_again() {
    let mut graph = Graph::new();
    let x = floats(&mut graph, &[1., 2., 3., 4., 5., 6.], vec![2, 3], Device::GPU);
    let turned = x.permute(vec![1, 0], &mut graph).unwrap();
    let turned_back = turned.permute(vec![1, 0], &mut graph).unwrap();
    let turned_again = turned_back.permute(vec![1, 0], &mut graph).unwrap();
    let (id1, id2) = (turned.id(), turned_back.id());
    turned.release(&mut graph);
    turned_back.release(&mut graph);
    let exec = turned_again.resolve(&mut graph).unwrap();
    assert_eq!(exec.steps.len(), 3);
    let hx = buffer_of(&graph, x.id());
    let h1 = buffer_of(&graph, id1);
    let h2 = buffer_of(&graph, id2);
    let h3 = buffer_of(&graph, turned_again.id());
    assert_ne!(h1, hx);
    assert_ne!(h2, h1);
    // when the third is computed the first is no longer needed
    assert_eq!(h3, h1);
    assert_eq!(graph.device().buffers.len(), 3);
    // the second is not needed at the end: its buffer is free again
    assert!(!graph.device().buffers.get(h2).unwrap().in_use);
    assert!(graph.device().buffers.get(h3).unwrap().in_use);
    assert!(graph.device().buffers.get(hx).unwrap().in_use);
    assert_eq!(exec.steps[2].buffers, vec![h2, h3]);
}

#[test]
fn resolving_twice_does_nothing_the_second_time() {
    let mut graph = Graph::new();
    let a = floats(&mut graph, &[1., 2., 3., 4.], vec![4], Device::GPU);
    let b = floats(&mut graph, &[4., 3., 2., 1.], vec![4], Device::GPU);
    let c = a.mul(&b, &mut graph).unwrap();
    let first = c.resolve(&mut graph).unwrap();
    assert_eq!(first.steps.len(), 1);
    let buffer = buffer_of(&graph, c.id());
    let buffers = graph.device().buffers.len();
    let pipelines = graph.device().pipelines.len();
    let second = c.resolve(&mut graph).unwrap();
    assert!(second.steps.is_empty());
    assert!(second.uniform.is_empty());
    assert_eq!(buffer_of(&graph, c.id()), buffer);
    assert_eq!(graph.device().buffers.len(), buffers);
    assert_eq!(graph.device().pipelines.len(), pipelines);
    // a node that is added later computes only itself
    let d = c.gelu(&mut graph).unwrap();
    let third = d.resolve(&mut graph).unwrap();
    assert_eq!(third.steps.len(), 1);
    assert_eq!(third.steps[0].node, d.id());
}

#[test]
fn a_tensor_without_elements_is_resolved_without_work() {
    let mut graph = Graph::new();
    let x = floats(&mut graph, &[], vec![0, 3], Device::GPU);
    assert_eq!(x.num_bytes(&graph), 0);
    let y = x.gelu(&mut graph).unwrap();
    let z = y.add(&x, &mut graph).unwrap();
    assert_eq!(z.shape(&graph).to_vec(), vec![0, 3]);
    let exec = z.resolve(&mut graph).unwrap();
    assert!(exec.steps.is_empty());
    assert!(exec.uniform.is_empty());
    assert!(z.resolved(&graph));
    assert!(y.resolved(&graph));
    match z.storage(&graph) {
        Some(Storage::GPU(buffer)) => assert_eq!(buffer.size, 0),
        _ => panic!("the node has no device buffer"),
    }
}

#[test]
fn operands_come_before_the_nodes_that_read_them() {
    let mut graph = Graph::new();
    let q = floats(&mut graph, &[1., 2.], vec![2], Device::GPU);
    let c = floats(&mut graph, &[3., 4.], vec![2], Device::GPU);
    let p = q.add(&c, &mut graph).unwrap();
    let root = p.add(&q, &mut graph).unwrap();
    let order = root.execution_order(&graph);
    assert_eq!(order, vec![q.id(), c.id(), p.id(), root.id()]);
    // every node once, whatever the number of ways to it
    let twice = root.mul(&root, &mut graph).unwrap();
    let order = twice.execution_order(&graph);
    assert_eq!(order, vec![q.id(), c.id(), p.id(), root.id(), twice.id()]);
    // nodes that the root does not depend on stay out
    let other = c.gelu(&mut graph).unwrap();
    assert_eq!(p.execution_order(&graph), vec![q.id(), c.id(), p.id()]);
    assert_eq!(other.execution_order(&graph), vec![c.id(), other.id()]);
}

#[test]
fn shapes_are_inferred_when_the_graph_is_built() {
    let mut graph = Graph::new();
    let a = floats(&mut graph, &[0.0; 6], vec![2, 3], Device::GPU);
    let b = floats(&mut graph, &[0.0; 3], vec![3], Device::GPU);
    let m = floats(&mut graph, &[0.0; 12], vec![3, 4], Device::GPU);
    let ab = a.add(&b, &mut graph).unwrap();
    let ba = b.add(&a, &mut graph).unwrap();
    assert_eq!(ab.shape(&graph).to_vec(), vec![2, 3]);
    assert_eq!(ba.shape(&graph).to_vec(), vec![2, 3]);
    assert_eq!(ab.view(&graph).strides().to_vec(), vec![3, 1]);
    assert_eq!(a.sub(&b, &mut graph).unwrap().rank(&graph), 2);
    assert_eq!(a.div(&b, &mut graph).unwrap().num_bytes(&graph), 24);
    let am = a.matmul(&m, &mut graph).unwrap();
    assert_eq!(am.shape(&graph).to_vec(), vec![2, 4]);
    assert_eq!(a.gelu(&mut graph).unwrap().shape(&graph).to_vec(), vec![2, 3]);
    let t = a.permute(vec![1, 0], &mut graph).unwrap();
    assert_eq!(t.shape(&graph).to_vec(), vec![3, 2]);
    assert_eq!(t.view(&graph).strides().to_vec(), vec![2, 1]);
    // errors leave the graph as it is
    let nodes = graph.len();
    assert_eq!(a.add(&m, &mut graph).unwrap_err(), OperationError::ShapeError);
    assert_eq!(m.matmul(&a, &mut graph).unwrap_err(), OperationError::ShapeError);
    assert_eq!(a.permute(vec![0, 0], &mut graph).unwrap_err(), OperationError::ShapeError);
    assert_eq!(a.permute(vec![0], &mut graph).unwrap_err(), OperationError::ShapeError);
    assert_eq!(graph.len(), nodes);
}

#[test]
fn permuting_there_and_back_gives_the_shape_back() {
    let mut graph = Graph::new();
    let x = floats(&mut graph, &[0.0; 24], vec![2, 3, 4], Device::GPU);
    let p = vec![2, 0, 1];
    let inv = ratchet::permute::inverse(&p).unwrap();
    let there = x.permute(inv, &mut graph).unwrap();
    assert_eq!(there.shape(&graph).to_vec(), vec![3, 4, 2]);
    let back = there.permute(p, &mut graph).unwrap();
    assert_eq!(back.shape(&graph).to_vec(), vec![2, 3, 4]);
    let exec = back.resolve(&mut graph).unwrap();
    assert_eq!(exec.steps.len(), 2);
    assert_eq!(kernel_key(&graph, &exec.steps[0]), "permute_vec4");
    // source shape, strides of the result, order for rank 4, elements
    assert_eq!(
        words(&exec.uniform[..64]),
        vec![1, 2, 3, 4, 24, 8, 2, 1, 0, 2, 3, 1, 24, 0, 0, 0]
    );
}

#[test]
fn operands_of_different_kinds_are_refused() {
    let mut graph = Graph::new();
    let a = floats(&mut graph, &[1., 2.], vec![2], Device::GPU);
    let on_host = floats(&mut graph, &[1., 2.], vec![2], Device::CPU);
    let ints: [i32; 2] = [1, 2];
    let b = Tensor::from_data(
        bytemuck::cast_slice(&ints),
        DType::I32,
        Shape::new(vec![2]),
        Device::GPU,
        &mut graph,
    );
    assert_eq!(a.add(&b, &mut graph).unwrap_err(), OperationError::DtypeError);
    assert_eq!(a.matmul(&b, &mut graph).unwrap_err(), OperationError::ShapeError);
    assert_eq!(a.add(&on_host, &mut graph).unwrap_err(), OperationError::DeviceMismatch);
    let deep = floats(&mut graph, &[1., 2.], vec![1, 1, 1, 1, 2], Device::GPU);
    assert_eq!(deep.gelu(&mut graph).unwrap_err(), OperationError::ShapeError);
}

#[test]
fn a_host_tensor_cannot_be_resolved() {
    let mut graph = Graph::new();
    let a = floats(&mut graph, &[1., 2.], vec![2], Device::CPU);
    let b = a.gelu(&mut graph).unwrap();
    assert_eq!(
        b.resolve(&mut graph).unwrap_err(),
        TensorError::DeviceError(DeviceError::DeviceNotGpu)
    );
    assert!(!b.resolved(&graph));
}

#[test]
fn deep_clone_copies_host_data() {
    let mut graph = Graph::new();
    let a = floats(&mut graph, &[1., 2.], vec![2], Device::CPU);
    let copy = a.deep_clone(&mut graph).unwrap();
    assert_ne!(copy.id(), a.id());
    assert_eq!(copy.shape(&graph).to_vec(), vec![2]);
    let (ours, theirs) = match (a.storage(&graph), copy.storage(&graph)) {
        (Some(Storage::CPU(x)), Some(Storage::CPU(y))) => (x, y),
        _ => panic!("the tensors are not on the host"),
    };
    assert_eq!(ours.as_bytes(), theirs.as_bytes());
    assert!(!std::ptr::eq(ours.inner(), theirs.inner()));
    let unresolved = a.gelu(&mut graph).unwrap();
    assert_eq!(unresolved.deep_clone(&mut graph).unwrap_err(), TensorError::NotResolved);
}

#[test]
fn deep_clone_copies_device_data_on_the_device() {
    let mut graph = Graph::new();
    let a = floats(&mut graph, &[1., 2., 3.], vec![3], Device::GPU);
    let copy = a.deep_clone(&mut graph).unwrap();
    assert_ne!(copy.id(), a.id());
    assert_eq!(copy.device(&graph), Device::GPU);
    assert_eq!(copy.shape(&graph).to_vec(), vec![3]);
    assert!(copy.resolved(&graph));
    let ha = buffer_of(&graph, a.id());
    let hc = buffer_of(&graph, copy.id());
    assert_ne!(ha, hc);
    let uploads = graph.take_uploads();
    assert_eq!(uploads.len(), 2);
    assert_eq!(uploads[0].buffer, ha);
    assert_eq!(uploads[0].from, None);
    assert_eq!(uploads[1].buffer, hc);
    assert_eq!(uploads[1].from, Some(ha));
    assert!(uploads[1].data.as_bytes().is_empty());
}

#[test]
fn giving_up_the_last_handle_frees_the_buffer() {
    let mut graph = Graph::new();
    let a = floats(&mut graph, &[1., 2.], vec![2], Device::GPU);
    let ha = buffer_of(&graph, a.id());
    let twin = a.clone_handle(&mut graph);
    assert_eq!(graph.handle_count(a.id()), 2);
    a.release(&mut graph);
    assert!(graph.device().buffers.get(ha).unwrap().in_use);
    twin.release(&mut graph);
    assert!(!graph.device().buffers.get(ha).unwrap().in_use);
    // a node that is yet to be computed keeps its operands
    let b = floats(&mut graph, &[1., 2.], vec![2], Device::GPU);
    let hb = buffer_of(&graph, b.id());
    assert_eq!(hb, ha);
    let c = b.gelu(&mut graph).unwrap();
    b.release(&mut graph);
    assert!(graph.device().buffers.get(hb).unwrap().in_use);
    let exec = c.resolve(&mut graph).unwrap();
    assert!(exec.steps[0].inplace);
    assert_eq!(buffer_of(&graph, c.id()), hb);
}

#[test]
fn a_dispatch_too_large_for_a_device_is_refused() {
    use_dispatch_limit();
}

fn use_dispatch_limit() {
    let max = WorkgroupCount::MAX_WGS_PER_DIM;
    let view = ratchet::view::StorageView::contiguous(
        Shape::new(vec![64 * max * max + 1]),
        DType::F16,
    );
    let op = ratchet::unary::Unary::new(TensorId { index: 0 }, ratchet::unary::UnaryOp::Gelu);
    assert_eq!(op.calculate_dispatch(&view), Err(OperationError::DispatchTooLarge));
    let view = ratchet::view::StorageView::contiguous(Shape::new(vec![64 * max + 1]), DType::F16);
    assert_eq!(op.calculate_dispatch(&view), Ok(WorkgroupCount::new(65535, 2, 1)));
}

#[test]
fn the_soft_cap_bounds_the_idle_buffers_of_a_graph() {
    let mut graph = Graph::new();
    graph.set_buffer_soft_cap(1);
    let x = floats(&mut graph, &[1., 2., 3., 4., 5., 6.], vec![2, 3], Device::GPU);
    let turned = x.permute(vec![1, 0], &mut graph).unwrap();
    let turned_back = turned.permute(vec![1, 0], &mut graph).unwrap();
    let bigger = floats(&mut graph, &[0.0; 12], vec![12], Device::GPU);
    let sum = bigger.add(&bigger, &mut graph).unwrap();
    let (id1, id2) = (turned.id(), turned_back.id());
    turned.release(&mut graph);
    let _ = turned_back.resolve(&mut graph).unwrap();
    // the first permutation is no longer needed: its buffer is idle
    assert_eq!(graph.device().buffers.idle(), 1);
    let h1 = buffer_of(&graph, id1);
    assert!(graph.device().buffers.get(h1).unwrap().resident);
    // giving up more buffers lets the older ones go
    let h2 = buffer_of(&graph, id2);
    turned_back.release(&mut graph);
    assert_eq!(graph.device().buffers.idle(), 1);
    assert!(!graph.device().buffers.get(h1).unwrap().resident);
    assert!(graph.device().buffers.get(h2).unwrap().resident);
    let _ = sum.resolve(&mut graph).unwrap();
    assert!(graph.device().buffers.get(buffer_of(&graph, sum.id())).unwrap().resident);
    assert!(graph.device().buffers.get(buffer_of(&graph, x.id())).unwrap().in_use);
}

#[test]
fn storage_knows_its_device() {
    let mut graph = Graph::new();
    let host = floats(&mut graph, &[1., 2.], vec![2], Device::CPU);
    let device = floats(&mut graph, &[1., 2.], vec![2], Device::GPU);
    let on_host = host.storage(&graph).as_ref().unwrap();
    let on_device = device.storage(&graph).as_ref().unwrap();
    assert_eq!(on_host.n_bytes(), 8);
    assert_eq!(on_device.n_bytes(), 8);
    assert!(on_host.try_cpu().is_ok());
    assert_eq!(on_host.try_gpu().unwrap_err(), DeviceError::DeviceNotGpu);
    assert!(on_device.try_gpu().is_ok());
    assert_eq!(on_device.try_cpu().unwrap_err(), DeviceError::DeviceNotCpu);
    assert!(Device::CPU.is_cpu() && !Device::CPU.is_gpu());
    assert!(Device::GPU.is_gpu() && !Device::GPU.is_cpu());
    assert_eq!(Device::CPU.try_gpu(), Err(DeviceError::DeviceNotGpu));
    assert_eq!(Device::GPU.try_gpu(), Ok(()));
}

#[test]
fn a_node_is_compiled_against_a_plan() {
    let mut graph = Graph::new();
    let a = floats(&mut graph, &[1., 2., 3.], vec![3], Device::GPU);
    let b = floats(&mut graph, &[4., 5., 6.], vec![3], Device::GPU);
    let c = a.mul(&b, &mut graph).unwrap();
    let order = c.execution_order(&graph);
    let plan = graph.allocate_cfg(&order).unwrap();
    assert_eq!(plan.inplace, vec![false, false, false]);
    assert_eq!(plan.bufs.len(), 3);
    assert!(plan.bufs.iter().all(|b| b.is_some()));
    assert_eq!(plan.pool.len(), 3);
    // the plan leaves the graph as it is
    assert_eq!(graph.device().buffers.len(), 2);
    assert!(!c.resolved(&graph));

    let mut uniform = ratchet::uniform::CpuUniform::new();
    // a node that holds data compiles to nothing
    assert!(a.compile(&mut graph, false, &plan.bufs, &mut uniform, 0).is_none());
    assert!(uniform.as_bytes().is_empty());
    let step = c.compile(&mut graph, false, &plan.bufs, &mut uniform, 0).unwrap();
    assert_eq!(step.node, c.id());
    assert_eq!(step.uniform_offset, 0);
    assert_eq!(step.workgroup_count, WorkgroupCount::new(1, 1, 1));
    assert_eq!(kernel_key(&graph, &step), "mul_scalar");
    assert_eq!(
        step.buffers,
        vec![
            plan.bufs[0].unwrap().inner,
            plan.bufs[1].unwrap().inner,
            plan.bufs[2].unwrap().inner
        ]
    );
    assert_eq!(uniform.offset(), 256);
    assert_eq!(
        words(uniform.as_bytes()),
        vec![1, 1, 1, 3, 1, 1, 1, 3, 3, 3, 3, 1, 3, 0, 0, 0]
    );
}

#[test]
fn a_new_graph_holds_nothing() {
    let mut graph = Graph::new();
    assert_eq!(graph.len(), 0);
    assert!(graph.take_uploads().is_empty());
    let device = graph.device();
    assert_eq!(device.buffers.len(), 0);
    assert_eq!(device.buffers.soft_cap(), usize::MAX);
    assert_eq!(device.bind_group_layouts.len(), 0);
    assert_eq!(device.pipeline_layouts.len(), 0);
    assert_eq!(device.pipelines.len(), 0);
}

#[test]
fn giving_up_the_last_handle_moves_the_time_of_the_pool() {
    let mut graph = Graph::new();
    assert_eq!(graph.device().buffers.now(), 0);
    let a = floats(&mut graph, &[1., 2.], vec![2], Device::GPU);
    let ha = buffer_of(&graph, a.id());
    let twin = a.clone_handle(&mut graph);
    a.release(&mut graph);
    // a handle is left: the pool and its time stay
    assert_eq!(graph.device().buffers.now(), 0);
    assert!(graph.device().buffers.get(ha).unwrap().in_use);
    twin.release(&mut graph);
    let entry = graph.device().buffers.get(ha).unwrap();
    assert!(!entry.in_use);
    assert!(entry.resident);
    assert_eq!(entry.freed_at, 0);
    assert_eq!(graph.device().buffers.now(), 1);
    assert_eq!(graph.device().buffers.soft_cap(), usize::MAX);
    // a host tensor has no buffer to give back
    let h = floats(&mut graph, &[1., 2.], vec![2], Device::CPU);
    h.release(&mut graph);
    assert_eq!(graph.device().buffers.now(), 1);
    assert_eq!(graph.device().buffers.len(), 1);
}

#[test]
fn a_device_buffer_is_aligned_to_one_element() {
    let mut graph = Graph::new();
    let on_device = floats(&mut graph, &[1., 2., 3.], vec![3], Device::GPU);
    match on_device.storage(&graph) {
        Some(Storage::GPU(buffer)) => {
            assert_eq!(buffer.size, 12);
            assert_eq!(buffer.alignment, 4);
        }
        _ => panic!("the node has no device buffer"),
    }
    let halves: [u8; 6] = [0, 60, 0, 64, 0, 66];
    let host = Tensor::from_data(&halves, DType::F16, Shape::new(vec![3]), Device::CPU, &mut graph);
    match host.storage(&graph) {
        Some(Storage::CPU(block)) => assert_eq!(block.alignment(), 2),
        _ => panic!("the node has no host block"),
    }
    let moved = done(host.to(Device::GPU, &mut graph).unwrap());
    match moved.storage(&graph) {
        Some(Storage::GPU(buffer)) => {
            assert_eq!(buffer.size, 6);
            assert_eq!(buffer.alignment, 2);
        }
        _ => panic!("the node has no device buffer"),
    }
    let request = match moved.to(Device::CPU, &mut graph).unwrap() {
        Transfer::Pending(request) => request,
        Transfer::Done(_) => panic!("the tensor is on the device"),
    };
    assert_eq!(request.buffer.size, 6);
    assert_eq!(request.buffer.alignment, 2);
    let back = Tensor::from_readback(&request, &halves, &mut graph).unwrap();
    assert_eq!(back.device(&graph), Device::CPU);
    assert_eq!(back.dt(&graph), DType::F16);
    match back.storage(&graph) {
        Some(Storage::CPU(block)) => {
            assert_eq!(block.as_bytes(), &halves);
            assert_eq!(block.alignment(), 2);
        }
        _ => panic!("the node has no host block"),
    }
}

#[test]
fn compiling_leaves_the_records_before_in_place() {
    let mut graph = Graph::new();
    let a = floats(&mut graph, &[1., 2., 3.], vec![3], Device::GPU);
    let b = floats(&mut graph, &[4., 5., 6.], vec![3], Device::GPU);
    let c = a.mul(&b, &mut graph).unwrap();
    let d = c.add(&a, &mut graph).unwrap();
    let order = d.execution_order(&graph);
    let plan = graph.allocate_cfg(&order).unwrap();
    let mut uniform = ratchet::uniform::CpuUniform::new();
    c.compile(&mut graph, false, &plan.bufs, &mut uniform, 0).unwrap();
    let first = uniform.as_bytes().to_vec();
    assert_eq!(first.len(), 64);
    assert_eq!(uniform.offset(), 256);
    // the pools hold what the dispatch needs, and nothing else
    assert_eq!(graph.device().bind_group_layouts.len(), 2);
    assert_eq!(graph.device().pipeline_layouts.len(), 1);
    assert_eq!(graph.device().pipelines.len(), 1);
    let step = d.compile(&mut graph, false, &plan.bufs, &mut uniform, 1).unwrap();
    assert_eq!(graph.device().bind_group_layouts.len(), 2);
    assert_eq!(graph.device().pipeline_layouts.len(), 1);
    assert_eq!(graph.device().pipelines.len(), 2);
    assert_eq!(step.uniform_offset, 256);
    assert_eq!(uniform.offset(), 512);
    let all = uniform.as_bytes();
    assert_eq!(all.len(), 256 + 64);
    assert_eq!(&all[..64], &first[..]);
    assert!(all[64..256].iter().all(|b| *b == 0));
    assert_eq!(words(&all[256..]), vec![1, 1, 1, 3, 1, 1, 1, 3, 3, 3, 3, 1, 3, 0, 0, 0]);
    // a node that holds data leaves the staging area as it is
    assert!(a.compile(&mut graph, false, &plan.bufs, &mut uniform, 2).is_none());
    assert_eq!(uniform.as_bytes().len(), 256 + 64);
    assert_eq!(uniform.offset(), 512);
}

#[test]
fn tensors_without_elements_can_be_added() {
    let mut graph = Graph::new();
    let x = floats(&mut graph, &[], vec![2, 0, 3], Device::GPU);
    let y = floats(&mut graph, &[], vec![2, 0, 3], Device::GPU);
    let z = x.add(&y, &mut graph).unwrap();
    assert_eq!(z.shape(&graph).to_vec(), vec![2, 0, 3]);
    assert_eq!(z.shape(&graph).numel(), 0);
    assert_eq!(z.num_bytes(&graph), 0);
    assert_eq!(z.dt(&graph), DType::F32);
    let exec = z.resolve(&mut graph).unwrap();
    assert!(exec.steps.is_empty());
    match z.storage(&graph) {
        Some(Storage::GPU(buffer)) => assert_eq!(buffer.size, 0),
        _ => panic!("the node has no device buffer"),
    }
}
