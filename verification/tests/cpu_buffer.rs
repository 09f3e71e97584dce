use ratchet::cpu_buffer::{CPUBuffer, Layout, RawCPUBuffer};
use ratchet::dtype::DType;
use ratchet::shape::Shape;

#[test]
fn layouts_need_a_power_of_two() {
    let layout = Layout::from_size_align(24, 4).unwrap();
    assert_eq!(layout.size(), 24);
    assert_eq!(layout.align(), 4);
    assert!(Layout::from_size_align(0, 1).is_some());
    assert!(Layout::from_size_align(24, 0).is_none());
    assert!(Layout::from_size_align(24, 3).is_none());
    assert!(Layout::from_size_align(24, 6).is_none());
    assert!(Layout::from_size_align(24, 4096).is_some());
    assert!(Layout::from_size_align(isize::MAX as usize, 1).is_some());
    assert!(Layout::from_size_align(isize::MAX as usize, 2).is_none());
    assert!(Layout::from_size_align(isize::MAX as usize - 3, 4).is_some());
    assert!(Layout::from_size_align(isize::MAX as usize - 2, 4).is_none());
}

#[test]
fn a_new_block_is_zeroed() {
    let raw = RawCPUBuffer::uninitialized(5, 4);
    assert_eq!(raw.n_bytes(), 5);
    assert_eq!(raw.as_bytes(), &[0u8; 5]);
    let (bytes, layout) = raw.into_raw_parts();
    assert_eq!(bytes.len(), 5);
    assert_eq!(layout, Layout::from_size_align(5, 4).unwrap());
    let empty = RawCPUBuffer::uninitialized(0, 1);
    assert_eq!(empty.n_bytes(), 0);
    assert!(empty.as_bytes().is_empty());
}

#[test]
fn from_bytes_copies_the_bytes() {
    let mut data = vec![1u8, 2, 3, 4, 5, 6, 7, 8];
    let buffer = CPUBuffer::from_bytes(&data, 4);
    data[0] = 99;
    assert_eq!(buffer.as_bytes(), &[1, 2, 3, 4, 5, 6, 7, 8]);
    assert_eq!(buffer.n_bytes(), 8);
    assert_eq!(buffer.alignment(), 4);
    assert_eq!(buffer.inner().n_bytes(), 8);
}

#[test]
fn from_slice_aligns_to_the_element_type() {
    let data: [f32; 3] = [1.0, 2.0, 3.0];
    let bytes: &[u8] = bytemuck::cast_slice(&data);
    let buffer = CPUBuffer::from_slice(bytes, DType::F32, &Shape::new(vec![3]));
    assert_eq!(buffer.n_bytes(), 12);
    assert_eq!(buffer.alignment(), 4);
    assert_eq!(buffer.as_bytes(), bytes);
    let back: Vec<f32> = buffer
        .as_bytes()
        .chunks(4)
        .map(|c| f32::from_le_bytes([c[0], c[1], c[2], c[3]]))
        .collect();
    assert_eq!(back, vec![1.0, 2.0, 3.0]);
}

#[test]
fn clones_share_and_deep_clones_copy() {
    let buffer = CPUBuffer::from_bytes(&[1, 2, 3], 1);
    let shared = buffer.clone();
    let copied = buffer.deep_clone().unwrap();
    assert_eq!(shared.as_bytes(), &[1, 2, 3]);
    assert_eq!(copied.as_bytes(), &[1, 2, 3]);
    assert_eq!(copied.alignment(), 1);
    // a shared handle shows the same block, a copy a block of its own
    assert!(std::ptr::eq(buffer.inner(), shared.inner()));
    assert!(!std::ptr::eq(buffer.inner(), copied.inner()));
    assert_eq!(buffer.to_cpu().unwrap().as_bytes(), &[1, 2, 3]);
}

#[test]
fn a_block_can_be_written_through_its_bytes() {
    let mut raw = RawCPUBuffer::uninitialized(4, 2);
    raw.as_bytes_mut().copy_from_slice(&[1, 2, 3, 4]);
    raw.as_bytes_mut()[2] = 9;
    assert_eq!(raw.as_bytes(), &[1, 2, 9, 4]);
    assert_eq!(raw.n_bytes(), 4);
}

#[test]
fn a_block_can_be_overwritten() {
    let mut raw = RawCPUBuffer::uninitialized(3, 1);
    raw.copy_from_slice(&[9, 8, 7]);
    assert_eq!(raw.as_bytes(), &[9, 8, 7]);
    let copy = raw.clone();
    raw.copy_from_slice(&[1, 1, 1]);
    assert_eq!(copy.as_bytes(), &[9, 8, 7]);
    assert_eq!(CPUBuffer::new(raw).as_bytes(), &[1, 1, 1]);
}
