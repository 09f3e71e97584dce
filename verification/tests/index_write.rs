use ratchet::dtype::DType;
use ratchet::error::{OperationError, TensorError};
use ratchet::graph::Graph;
use ratchet::index_write::IndexWriteMeta;
use ratchet::layout::BindingType;
use ratchet::shape::Shape;
use ratchet::storage::{Device, Storage};
use ratchet::tensor::Tensor;
use ratchet::uniform::{pack, UVec4};
use ratchet::workgroup::WorkgroupCount;

fn floats(graph: &mut Graph, data: &[f32], dims: Vec<usize>, device: Device) -> Tensor {
    let bytes: &[u8] = bytemuck::cast_slice(data);
    Tensor::from_data(bytes, DType::F32, Shape::new(dims), device, graph)
}

fn word(bytes: &[u8], at: usize) -> u32 {
    u32::from_le_bytes([bytes[at], bytes[at + 1], bytes[at + 2], bytes[at + 3]])
}

#[test]
fn test_index_write() {
    let mut graph = Graph::new();
    let dst = floats(&mut graph, &[1., 2., 3., 4., 5., 6.], vec![3, 2], Device::GPU);
    let src = floats(&mut graph, &[7., 8.], vec![1, 2], Device::GPU);
    let write_start = vec![2, 0];
    let b = dst.index_write(&src, write_start, &mut graph).unwrap();
    let dst_id = dst.id();
    let src_id = src.id();
    dst.release(&mut graph);
    src.release(&mut graph);
    let exec = b.resolve(&mut graph).unwrap();

    // one dispatch, in place, over the two elements that are written
    assert_eq!(exec.steps.len(), 1);
    let step = &exec.steps[0];
    assert_eq!(step.node, b.id());
    assert!(step.inplace);
    assert_eq!(step.workgroup_count, WorkgroupCount::new(1, 1, 1));
    assert_eq!(step.uniform_offset, 0);

    // the result lives in the buffer of the destination
    let dst_buffer = match graph.storage(dst_id) {
        Some(Storage::GPU(buffer)) => buffer.inner,
        _ => panic!("the destination has no device buffer"),
    };
    let src_buffer = match graph.storage(src_id) {
        Some(Storage::GPU(buffer)) => buffer.inner,
        _ => panic!("the source has no device buffer"),
    };
    let out_buffer = match graph.storage(b.id()) {
        Some(Storage::GPU(buffer)) => {
            assert_eq!(buffer.size, 24);
            buffer.inner
        }
        _ => panic!("the result has no device buffer"),
    };
    assert_eq!(out_buffer, dst_buffer);
    assert_eq!(step.buffers, vec![dst_buffer, src_buffer]);

    // the parameter record: strides of [1, 1, 3, 2], two elements, start [0, 0, 2, 0]
    assert_eq!(exec.uniform.len(), 48);
    let record: Vec<u32> = (0..12).map(|i| word(&exec.uniform, 4 * i)).collect();
    assert_eq!(record, vec![6, 6, 2, 1, 2, 0, 0, 0, 0, 0, 2, 0]);

    // the pipeline of the in-place kernel
    let device = graph.device();
    let pipeline = device.pipelines.get(step.handles.pipeline).unwrap();
    assert_eq!(pipeline.kernel_key(), "index_write_scalar");
    let layout = device.bind_group_layouts.get(step.handles.storage_layout.index).unwrap();
    assert_eq!(
        layout.entries().to_vec(),
        vec![BindingType::StorageReadWrite, BindingType::StorageReadOnly]
    );

    // the data that is owed to the device is the data that was given
    let uploads = graph.take_uploads();
    assert_eq!(uploads.len(), 2);
    let expected: &[u8] = bytemuck::cast_slice(&[1.0f32, 2., 3., 4., 5., 6.]);
    assert_eq!(uploads[0].buffer, dst_buffer);
    assert_eq!(uploads[0].data.as_bytes(), expected);
    let expected: &[u8] = bytemuck::cast_slice(&[7.0f32, 8.]);
    assert_eq!(uploads[1].buffer, src_buffer);
    assert_eq!(uploads[1].data.as_bytes(), expected);
}

#[test]
fn index_write_outside_the_destination_is_a_shape_error() {
    let mut graph = Graph::new();
    let dst = floats(&mut graph, &[1., 2., 3., 4., 5., 6.], vec![3, 2], Device::GPU);
    let src = floats(&mut graph, &[7., 8.], vec![1, 2], Device::GPU);
    let nodes = graph.len();
    assert_eq!(
        dst.index_write(&src, vec![3, 0], &mut graph).unwrap_err(),
        OperationError::ShapeError
    );
    assert_eq!(
        dst.index_write(&src, vec![2, 1], &mut graph).unwrap_err(),
        OperationError::ShapeError
    );
    assert_eq!(
        dst.index_write(&src, vec![2], &mut graph).unwrap_err(),
        OperationError::ShapeError
    );
    assert_eq!(graph.len(), nodes);
    assert!(dst.index_write(&src, vec![0, 0], &mut graph).is_ok());
    assert_eq!(graph.len(), nodes + 1);
}

#[test]
fn index_write_of_another_element_type_is_a_dtype_error() {
    let mut graph = Graph::new();
    let dst = floats(&mut graph, &[1., 2., 3., 4., 5., 6.], vec![3, 2], Device::GPU);
    let ints: [u32; 2] = [7, 8];
    let src = Tensor::from_data(
        bytemuck::cast_slice(&ints),
        DType::U32,
        Shape::new(vec![1, 2]),
        Device::GPU,
        &mut graph,
    );
    assert_eq!(
        dst.index_write(&src, vec![2, 0], &mut graph).unwrap_err(),
        OperationError::DtypeError
    );
}

#[test]
fn index_write_into_a_held_destination_cannot_be_resolved() {
    let mut graph = Graph::new();
    let dst = floats(&mut graph, &[1., 2., 3., 4., 5., 6.], vec![3, 2], Device::GPU);
    let src = floats(&mut graph, &[7., 8.], vec![1, 2], Device::GPU);
    let b = dst.index_write(&src, vec![2, 0], &mut graph).unwrap();
    // `dst` is still held: its buffer must not be written over
    assert_eq!(
        b.resolve(&mut graph).unwrap_err(),
        TensorError::OperationError(OperationError::InplaceRequired)
    );
    assert!(!b.resolved(&graph));
    // once the handle is given up, the operation can work in place
    dst.release(&mut graph);
    let exec = b.resolve(&mut graph).unwrap();
    assert_eq!(exec.steps.len(), 1);
    assert!(b.resolved(&graph));
}

#[test]
fn index_write_meta_is_laid_out_as_three_vectors() {
    let meta = IndexWriteMeta::new(
        UVec4 { x: 6, y: 6, z: 2, w: 1 },
        2,
        UVec4 { x: 0, y: 0, z: 2, w: 0 },
    );
    let ours = pack(&meta.fields());
    let mut theirs = encase::UniformBuffer::new(Vec::<u8>::new());
    theirs
        .write(&[
            glam::UVec4::new(6, 6, 2, 1),
            glam::UVec4::new(2, 0, 0, 0),
            glam::UVec4::new(0, 0, 2, 0),
        ])
        .unwrap();
    assert_eq!(ours, theirs.into_inner());
}
