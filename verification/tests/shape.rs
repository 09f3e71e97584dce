use ratchet::binary::broadcast;
use ratchet::dtype::DType;
use ratchet::matmul::Matmul;
use ratchet::permute::inverse;
use ratchet::shape::{Shape, Strides};
use ratchet::view::StorageView;
use ratchet::workgroup::WorkgroupCount;

#[test]
fn numel_is_the_product_of_the_extents() {
    assert_eq!(Shape::new(vec![3, 2]).numel(), 6);
    assert_eq!(Shape::new(vec![]).numel(), 1);
    assert_eq!(Shape::new(vec![7]).numel(), 7);
    assert_eq!(Shape::new(vec![2, 0, 5]).numel(), 0);
    assert_eq!(Shape::new(vec![256, 256]).numel(), 65536);
    assert_eq!(Shape::new(vec![2, 3, 4, 5]).len(), 4);
    assert_eq!(Shape::new(vec![2, 3, 4, 5]).rank(), 4);
}

#[test]
fn shapes_that_do_not_fit_are_told() {
    assert!(Shape::new(vec![3, 2]).fits());
    assert!(Shape::new(vec![usize::MAX]).fits());
    assert!(!Shape::new(vec![usize::MAX, 2]).fits());
    // a suffix that does not fit, behind a zero
    assert!(!Shape::new(vec![0, usize::MAX, 2]).fits());
    assert!(Shape::new(vec![usize::MAX, 0, 2]).fits());
}

#[test]
fn strides_are_row_major() {
    assert_eq!(Strides::from(&Shape::new(vec![3, 2])).to_vec(), vec![2, 1]);
    assert_eq!(Strides::from(&Shape::new(vec![2, 3, 4])).to_vec(), vec![12, 4, 1]);
    assert_eq!(Strides::from(&Shape::new(vec![5])).to_vec(), vec![1]);
    assert_eq!(Strides::from(&Shape::new(vec![])).to_vec(), Vec::<usize>::new());
    assert_eq!(Strides::from(&Shape::new(vec![2, 0, 4])).to_vec(), vec![0, 4, 1]);
}

#[test]
fn left_pad_to_pads_with_the_fill() {
    let mut shape = Shape::new(vec![3, 2]);
    shape.left_pad_to(1, 4);
    assert_eq!(shape.to_vec(), vec![1, 1, 3, 2]);
    shape.left_pad_to(7, 4);
    assert_eq!(shape.to_vec(), vec![1, 1, 3, 2]);
    shape.left_pad_to(7, 2);
    assert_eq!(shape.to_vec(), vec![1, 1, 3, 2]);
    let mut scalar = Shape::new(vec![]);
    scalar.left_pad_to(0, 3);
    assert_eq!(scalar.to_vec(), vec![0, 0, 0]);
    assert_eq!(Strides::from(&shape).to_vec(), vec![6, 6, 2, 1]);
}

#[test]
fn element_types_have_their_sizes() {
    assert_eq!(DType::F32.size_of(), 4);
    assert_eq!(DType::I32.size_of(), 4);
    assert_eq!(DType::U32.size_of(), 4);
    assert_eq!(DType::F16.size_of(), 2);
    assert_eq!(DType::F32.align_of(), 4);
    assert_eq!(DType::F16.align_of(), 2);
}

#[test]
fn views_know_their_size() {
    let view = StorageView::contiguous(Shape::new(vec![3, 2]), DType::F16);
    assert_eq!(view.numel(), 6);
    assert_eq!(view.num_bytes(), 12);
    assert_eq!(view.strides().to_vec(), vec![2, 1]);
    assert!(view.is_valid());
    assert!(view.is_kernel_ready());
    let deep = StorageView::contiguous(Shape::new(vec![1, 1, 1, 1, 2]), DType::F32);
    assert!(deep.is_valid());
    assert!(!deep.is_kernel_ready());
    let broken = StorageView::new(
        Shape::new(vec![3, 2]),
        DType::F32,
        Strides::new(vec![1]),
    );
    assert!(!broken.is_valid());
}

fn broadcast_of(a: Vec<usize>, b: Vec<usize>) -> Option<Vec<usize>> {
    broadcast(&Shape::new(a), &Shape::new(b)).map(|s| s.to_vec())
}

#[test]
fn broadcasting_matches_extents_from_the_right() {
    assert_eq!(broadcast_of(vec![3, 2], vec![3, 2]), Some(vec![3, 2]));
    assert_eq!(broadcast_of(vec![3, 2], vec![2]), Some(vec![3, 2]));
    assert_eq!(broadcast_of(vec![3, 1], vec![1, 4]), Some(vec![3, 4]));
    assert_eq!(broadcast_of(vec![5, 1, 7], vec![6, 1]), Some(vec![5, 6, 7]));
    assert_eq!(broadcast_of(vec![], vec![2, 2]), Some(vec![2, 2]));
    assert_eq!(broadcast_of(vec![0], vec![1]), Some(vec![0]));
    assert_eq!(broadcast_of(vec![3, 2], vec![3]), None);
    assert_eq!(broadcast_of(vec![2, 3], vec![3, 2]), None);
}

#[test]
fn broadcasting_does_not_depend_on_the_order() {
    let shapes = [vec![3, 2], vec![2], vec![3, 1], vec![1, 4], vec![], vec![5, 1, 7], vec![6, 1]];
    for a in shapes.iter() {
        for b in shapes.iter() {
            assert_eq!(broadcast_of(a.clone(), b.clone()), broadcast_of(b.clone(), a.clone()));
        }
    }
}

fn product_shape(a: Vec<usize>, b: Vec<usize>) -> Option<Vec<usize>> {
    Matmul::output_shape(&Shape::new(a), &Shape::new(b)).map(|s| s.to_vec())
}

#[test]
fn matmul_multiplies_the_last_two_dimensions() {
    assert_eq!(product_shape(vec![256, 256], vec![256, 256]), Some(vec![256, 256]));
    assert_eq!(product_shape(vec![2, 3], vec![3, 5]), Some(vec![2, 5]));
    assert_eq!(product_shape(vec![4, 2, 3], vec![3, 5]), Some(vec![4, 2, 5]));
    assert_eq!(product_shape(vec![4, 2, 3], vec![4, 3, 5]), Some(vec![4, 2, 5]));
    assert_eq!(product_shape(vec![1, 2, 3], vec![7, 3, 5]), Some(vec![7, 2, 5]));
    assert_eq!(product_shape(vec![2, 3], vec![2, 3]), None);
    assert_eq!(product_shape(vec![3], vec![3, 5]), None);
    assert_eq!(product_shape(vec![4, 2, 3], vec![5, 3, 5]), None);
}

#[test]
fn inverse_undoes_a_permutation() {
    assert_eq!(inverse(&[0, 2, 1]), Some(vec![0, 2, 1]));
    assert_eq!(inverse(&[2, 0, 1]), Some(vec![1, 2, 0]));
    assert_eq!(inverse(&[1, 2, 0]), Some(vec![2, 0, 1]));
    assert_eq!(inverse(&[]), Some(vec![]));
    assert_eq!(inverse(&[0, 0, 1]), None);
    assert_eq!(inverse(&[0, 3, 1]), None);
}

#[test]
fn div_ceil_rounds_up() {
    assert_eq!(WorkgroupCount::div_ceil(0, 64), 0);
    assert_eq!(WorkgroupCount::div_ceil(1, 64), 1);
    assert_eq!(WorkgroupCount::div_ceil(64, 64), 1);
    assert_eq!(WorkgroupCount::div_ceil(65, 64), 2);
    assert_eq!(WorkgroupCount::div_ceil(usize::MAX, 1), usize::MAX);
    assert_eq!(WorkgroupCount::div_ceil(usize::MAX, 2), usize::MAX / 2 + 1);
}

#[test]
fn dispatch_wraps_into_the_second_dimension() {
    let max = WorkgroupCount::MAX_WGS_PER_DIM;
    assert_eq!(max, 65535);
    assert_eq!(WorkgroupCount::for_numel(0), Some(WorkgroupCount::new(0, 1, 1)));
    assert_eq!(WorkgroupCount::for_numel(2), Some(WorkgroupCount::new(1, 1, 1)));
    assert_eq!(WorkgroupCount::for_numel(65536), Some(WorkgroupCount::new(1024, 1, 1)));
    assert_eq!(WorkgroupCount::for_numel(64 * max), Some(WorkgroupCount::new(65535, 1, 1)));
    assert_eq!(WorkgroupCount::for_numel(64 * max + 1), Some(WorkgroupCount::new(65535, 2, 1)));
    assert_eq!(
        WorkgroupCount::for_numel(64 * max * 3),
        Some(WorkgroupCount::new(65535, 3, 1))
    );
    assert_eq!(
        WorkgroupCount::for_numel(64 * max * 3 + 1),
        Some(WorkgroupCount::new(65535, 4, 1))
    );
    assert_eq!(
        WorkgroupCount::for_numel(64 * max * max),
        Some(WorkgroupCount::new(65535, 65535, 1))
    );
    assert_eq!(WorkgroupCount::for_numel(64 * max * max + 1), None);
}
