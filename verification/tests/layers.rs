use ratchet::dtype::DType;
use ratchet::error::OperationError;
use ratchet::graph::Graph;
use ratchet::lazy_op::LazyOp;
use ratchet::nn::{ConvBlock, EncoderStem, Linear};
use ratchet::shape::Shape;
use ratchet::storage::Device;
use ratchet::tensor::Tensor;
use ratchet::workgroup::WorkgroupCount;

fn zeros(graph: &mut Graph, dims: Vec<usize>) -> Tensor {
    let count: usize = dims.iter().product();
    let data = vec![0.0f32; count];
    Tensor::from_data(
        bytemuck::cast_slice(&data),
        DType::F32,
        Shape::new(dims),
        Device::GPU,
        graph,
    )
}

fn words(bytes: &[u8]) -> Vec<u32> {
    bytes
        .chunks(4)
        .map(|c| u32::from_le_bytes([c[0], c[1], c[2], c[3]]))
        .collect()
}

fn kernel_key(graph: &Graph, step: &ratchet::compile::CompiledOp) -> String {
    graph
        .device()
        .pipelines
        .get(step.handles.pipeline)
        .unwrap()
        .kernel_key()
        .to_string()
}

#[test]
fn gemm_reads_its_operands_as_the_flags_say() {
    let mut graph = Graph::new();
    let x = zeros(&mut graph, vec![2, 3]);
    let w = zeros(&mut graph, vec![5, 3]);
    let b = zeros(&mut graph, vec![5]);
    assert_eq!(
        x.gemm(&w, None, false, false, false, &mut graph).unwrap_err(),
        OperationError::ShapeError
    );
    let y = x.gemm(&w, Some(&b), false, true, false, &mut graph).unwrap();
    assert_eq!(y.shape(&graph).to_vec(), vec![2, 5]);
    let yt = x.gemm(&w, None, false, true, true, &mut graph).unwrap();
    assert_eq!(yt.shape(&graph).to_vec(), vec![5, 2]);
    let z = w.gemm(&x, None, false, true, false, &mut graph).unwrap();
    assert_eq!(z.shape(&graph).to_vec(), vec![5, 2]);
    let u = x.gemm(&x, None, true, false, false, &mut graph).unwrap();
    assert_eq!(u.shape(&graph).to_vec(), vec![3, 3]);
    let wrong = zeros(&mut graph, vec![2]);
    assert_eq!(
        x.gemm(&w, Some(&wrong), false, true, false, &mut graph).unwrap_err(),
        OperationError::ShapeError
    );

    let exec = y.resolve(&mut graph).unwrap();
    assert_eq!(exec.steps.len(), 1);
    assert_eq!(kernel_key(&graph, &exec.steps[0]), "gemm_bias_vec2");
    assert_eq!(exec.steps[0].buffers.len(), 4);
    assert_eq!(
        words(&exec.uniform),
        vec![
            1, 1, 2, 3, // lhs
            1, 1, 5, 3, // rhs
            1, 1, 2, 5, // result
            10, 10, 5, 1, // strides of the result
            3, // inner extent
            2 + 8, // right operand transposed, with a bias
            0, 0,
        ]
    );
}

#[test]
fn a_linear_layer_is_a_gemm() {
    let mut graph = Graph::new();
    let x = zeros(&mut graph, vec![4, 3]);
    let w = zeros(&mut graph, vec![7, 3]);
    let b = zeros(&mut graph, vec![7]);
    let layer = Linear::new(w, Some(b), true);
    let y = layer.schedule(&x, &mut graph).unwrap();
    assert_eq!(y.shape(&graph).to_vec(), vec![4, 7]);
    match y.op(&graph) {
        LazyOp::Gemm(gemm) => {
            assert_eq!(gemm.lhs, x.id());
            assert_eq!(gemm.rhs, layer.w.id());
            assert!(gemm.bias.is_some());
            assert!(!gemm.trans_lhs);
            assert!(gemm.trans_rhs);
            assert!(!gemm.trans_out);
        }
        _ => panic!("a linear layer schedules a gemm"),
    }
    let plain = Linear::new(zeros(&mut graph, vec![3, 2]), None, false);
    assert_eq!(plain.schedule(&x, &mut graph).unwrap().shape(&graph).to_vec(), vec![4, 2]);
    let narrow = zeros(&mut graph, vec![4, 2]);
    assert_eq!(
        layer.schedule(&narrow, &mut graph).unwrap_err(),
        OperationError::ShapeError
    );
}

#[test]
fn conv1d_counts_the_places_of_the_kernel() {
    let mut graph = Graph::new();
    let x = zeros(&mut graph, vec![1, 80, 3000]);
    let w = zeros(&mut graph, vec![384, 80, 3]);
    let b = zeros(&mut graph, vec![384]);
    let same = x.conv1d(&w, Some(&b), 1, 1, &mut graph).unwrap();
    assert_eq!(same.shape(&graph).to_vec(), vec![1, 384, 3000]);
    let halved = x.conv1d(&w, Some(&b), 2, 1, &mut graph).unwrap();
    assert_eq!(halved.shape(&graph).to_vec(), vec![1, 384, 1500]);
    let valid = x.conv1d(&w, None, 1, 0, &mut graph).unwrap();
    assert_eq!(valid.shape(&graph).to_vec(), vec![1, 384, 2998]);
    let strided = x.conv1d(&w, None, 7, 0, &mut graph).unwrap();
    assert_eq!(strided.shape(&graph).to_vec(), vec![1, 384, 429]);
    assert_eq!(
        x.conv1d(&w, None, 0, 1, &mut graph).unwrap_err(),
        OperationError::ShapeError
    );
    let short = zeros(&mut graph, vec![1, 80, 2]);
    assert_eq!(
        short.conv1d(&w, None, 1, 0, &mut graph).unwrap_err(),
        OperationError::ShapeError
    );
    assert_eq!(
        short.conv1d(&w, None, 1, 1, &mut graph).unwrap().shape(&graph).to_vec(),
        vec![1, 384, 2]
    );
    let channels = zeros(&mut graph, vec![1, 79, 3000]);
    assert_eq!(
        channels.conv1d(&w, None, 1, 1, &mut graph).unwrap_err(),
        OperationError::ShapeError
    );
    assert_eq!(
        x.conv1d(&w, Some(&x), 1, 1, &mut graph).unwrap_err(),
        OperationError::ShapeError
    );

    let exec = halved.resolve(&mut graph).unwrap();
    assert_eq!(exec.steps.len(), 1);
    assert_eq!(kernel_key(&graph, &exec.steps[0]), "conv1d_bias_vec4");
    assert_eq!(exec.steps[0].workgroup_count, WorkgroupCount::new(9000, 1, 1));
    assert_eq!(
        words(&exec.uniform),
        vec![
            1, 1, 80, 3000, // input
            1, 384, 80, 3, // weight
            1, 1, 384, 1500, // result
            576000, 576000, 1500, 1, // strides of the result
            2, 1, 1, // stride, padding, bias
            0,
        ]
    );
}

#[test]
fn a_conv_block_is_a_convolution_and_its_activation() {
    let mut graph = Graph::new();
    let x = zeros(&mut graph, vec![1, 4, 10]);
    let block = ConvBlock::new(zeros(&mut graph, vec![6, 4, 3]), zeros(&mut graph, vec![6]), 2, 1);
    let nodes = graph.len();
    let y = block.schedule(&x, &mut graph).unwrap();
    assert_eq!(graph.len(), nodes + 2);
    assert_eq!(y.shape(&graph).to_vec(), vec![1, 6, 5]);
    assert!(matches!(y.op(&graph), LazyOp::Unary(_)));
    // the handle to the convolution is given up: the activation is in place
    let exec = y.resolve(&mut graph).unwrap();
    assert_eq!(exec.steps.len(), 2);
    assert!(!exec.steps[0].inplace);
    assert!(exec.steps[1].inplace);
    assert_eq!(kernel_key(&graph, &exec.steps[1]), "gelu_inplace_vec2");
    // a block that does not fit adds nothing
    let nodes = graph.len();
    let wrong = zeros(&mut graph, vec![1, 5, 10]);
    assert_eq!(
        block.schedule(&wrong, &mut graph).unwrap_err(),
        OperationError::ShapeError
    );
    assert_eq!(graph.len(), nodes + 1);
}

#[test]
fn the_stem_of_an_encoder_adds_six_nodes() {
    let mut graph = Graph::new();
    let mel = zeros(&mut graph, vec![1, 8, 20]);
    let conv1 = ConvBlock::new(zeros(&mut graph, vec![16, 8, 3]), zeros(&mut graph, vec![16]), 1, 1);
    let conv2 =
        ConvBlock::new(zeros(&mut graph, vec![16, 16, 3]), zeros(&mut graph, vec![16]), 2, 1);
    let pos_embed = zeros(&mut graph, vec![10, 16]);
    let stem = EncoderStem::new(conv1, conv2, pos_embed);
    let nodes = graph.len();
    let out = stem.schedule(&mel, &mut graph).unwrap();
    assert_eq!(graph.len(), nodes + 6);
    assert_eq!(out.id().index, nodes + 5);
    assert_eq!(out.shape(&graph).to_vec(), vec![1, 10, 16]);
    for index in nodes..nodes + 5 {
        assert_eq!(graph.handle_count(ratchet::tensor_id::TensorId { index }), 0);
    }
    assert_eq!(graph.handle_count(out.id()), 1);
    let exec = out.resolve(&mut graph).unwrap();
    let keys: Vec<String> = exec.steps.iter().map(|s| kernel_key(&graph, s)).collect();
    assert_eq!(
        keys,
        vec![
            "conv1d_bias_vec4",
            "gelu_inplace_vec4",
            "conv1d_bias_vec4",
            "gelu_inplace_vec4",
            "permute_vec4",
            "add_inplace_vec4"
        ]
    );
    // three buffers are enough for the six results
    assert_eq!(graph.device().buffers.len(), 6 + 3);

    // a stage that does not fit leaves the stages before it in the graph
    let mut graph = Graph::new();
    let mel = zeros(&mut graph, vec![1, 8, 20]);
    let conv1 = ConvBlock::new(zeros(&mut graph, vec![16, 8, 3]), zeros(&mut graph, vec![16]), 1, 1);
    let conv2 =
        ConvBlock::new(zeros(&mut graph, vec![16, 16, 3]), zeros(&mut graph, vec![16]), 2, 1);
    let pos_embed = zeros(&mut graph, vec![11, 16]);
    let stem = EncoderStem::new(conv1, conv2, pos_embed);
    let nodes = graph.len();
    assert_eq!(stem.schedule(&mel, &mut graph).unwrap_err(), OperationError::ShapeError);
    assert_eq!(graph.len(), nodes + 5);
}

#[test]
fn softmax_names_a_dimension() {
    let mut graph = Graph::new();
    let x = zeros(&mut graph, vec![2, 3]);
    let y = x.softmax(1, &mut graph).unwrap();
    assert_eq!(y.shape(&graph).to_vec(), vec![2, 3]);
    assert_eq!(x.softmax(2, &mut graph).unwrap_err(), OperationError::ShapeError);
    let exec = y.resolve(&mut graph).unwrap();
    assert_eq!(kernel_key(&graph, &exec.steps[0]), "softmax_vec2");
    assert_eq!(words(&exec.uniform), vec![1, 1, 2, 3, 6, 3, 0, 0]);
}

#[test]
fn reshape_keeps_the_number_of_elements() {
    let mut graph = Graph::new();
    let x = zeros(&mut graph, vec![2, 3, 4]);
    let y = x.reshape(vec![6, 4], &mut graph).unwrap();
    assert_eq!(y.shape(&graph).to_vec(), vec![6, 4]);
    assert_eq!(y.view(&graph).strides().to_vec(), vec![4, 1]);
    assert_eq!(x.reshape(vec![5, 5], &mut graph).unwrap_err(), OperationError::ShapeError);
    assert_eq!(
        x.reshape(vec![1, 1, 1, 2, 12], &mut graph).unwrap_err(),
        OperationError::ShapeError
    );
    let exec = y.resolve(&mut graph).unwrap();
    assert_eq!(kernel_key(&graph, &exec.steps[0]), "reshape_vec4");
    assert_eq!(words(&exec.uniform), vec![24]);
}

#[test]
fn layer_norm_normalises_rows() {
    let mut graph = Graph::new();
    let x = zeros(&mut graph, vec![2, 3, 8]);
    let w = zeros(&mut graph, vec![8]);
    let b = zeros(&mut graph, vec![8]);
    let eps = 1e-5f32.to_bits();
    let y = x.layer_norm(&w, Some(&b), eps, &mut graph).unwrap();
    assert_eq!(y.shape(&graph).to_vec(), vec![2, 3, 8]);
    let plain = x.layer_norm(&w, None, eps, &mut graph).unwrap();
    assert_eq!(plain.shape(&graph).to_vec(), vec![2, 3, 8]);
    let wrong = zeros(&mut graph, vec![3]);
    assert_eq!(
        x.layer_norm(&wrong, None, eps, &mut graph).unwrap_err(),
        OperationError::ShapeError
    );
    assert_eq!(
        x.layer_norm(&w, Some(&wrong), eps, &mut graph).unwrap_err(),
        OperationError::ShapeError
    );
    let exec = y.resolve(&mut graph).unwrap();
    assert_eq!(kernel_key(&graph, &exec.steps[0]), "layer_norm_bias_vec4");
    assert_eq!(exec.steps[0].buffers.len(), 4);
    assert_eq!(words(&exec.uniform), vec![1, 2, 3, 8, 48, 8, eps, 1]);
}
