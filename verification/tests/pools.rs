use ratchet::gpu_buffer::{BufferDescriptor, BufferPool, BufferUsage};
use ratchet::layout::{
    BindGroupLayoutDescriptor, BindGroupLayoutPool, BindingType, PipelineLayoutHandle,
};
use ratchet::pipeline_pool::{
    ComputePipelineDescriptor, ComputePipelineHandle, ComputePipelinePool, KernelElement,
};

fn descriptor(layout: usize, key: &str, elem: KernelElement) -> ComputePipelineDescriptor {
    ComputePipelineDescriptor::new(PipelineLayoutHandle { index: layout }, key.to_string(), elem)
}

#[test]
fn get_or_create_twice_gives_one_handle() {
    let mut pool = ComputePipelinePool::new();
    let desc = descriptor(0, "add_vec4", KernelElement::Vec4);
    let first = pool.get_or_create(&desc);
    let second = pool.get_or_create(&desc);
    assert_eq!(first, second);
    assert_eq!(pool.len(), 1);
    let same = descriptor(0, "add_vec4", KernelElement::Vec4);
    assert_eq!(pool.get_or_create(&same), first);
    assert_eq!(pool.len(), 1);
}

#[test]
fn get_or_create_tells_descriptors_apart() {
    let mut pool = ComputePipelinePool::new();
    let a = pool.get_or_create(&descriptor(0, "add_vec4", KernelElement::Vec4));
    let b = pool.get_or_create(&descriptor(1, "add_vec4", KernelElement::Vec4));
    let c = pool.get_or_create(&descriptor(0, "add_vec2", KernelElement::Vec4));
    let d = pool.get_or_create(&descriptor(0, "add_vec4", KernelElement::Vec2));
    assert_eq!((a.index, b.index, c.index, d.index), (0, 1, 2, 3));
    assert_eq!(pool.len(), 4);
    // the handles stay valid
    assert_eq!(pool.get_or_create(&descriptor(1, "add_vec4", KernelElement::Vec4)), b);
    let got = pool.get(c).unwrap();
    assert_eq!(got.kernel_key(), "add_vec2");
    assert_eq!(got.elem(), KernelElement::Vec4);
    assert_eq!(got.pipeline_layout(), PipelineLayoutHandle { index: 0 });
    assert!(pool.get(ComputePipelineHandle { index: 4 }).is_none());
}

#[test]
fn layout_pool_holds_each_layout_once() {
    let mut pool = BindGroupLayoutPool::new();
    let unary = pool.get_or_create(&BindGroupLayoutDescriptor::unary());
    let binary = pool.get_or_create(&BindGroupLayoutDescriptor::binary());
    assert_ne!(unary, binary);
    assert_eq!(pool.get_or_create(&BindGroupLayoutDescriptor::unary()), unary);
    assert_eq!(pool.len(), 2);
    assert_eq!(pool.find(&BindGroupLayoutDescriptor::ternary()), None);
    assert_eq!(pool.find(&BindGroupLayoutDescriptor::binary()), Some(binary));
}

#[test]
fn the_closed_set_of_layouts() {
    let r = BindingType::StorageReadOnly;
    let w = BindingType::StorageReadWrite;
    assert_eq!(BindGroupLayoutDescriptor::unary().entries().to_vec(), vec![r, w]);
    assert_eq!(BindGroupLayoutDescriptor::unary_inplace().entries().to_vec(), vec![w]);
    assert_eq!(BindGroupLayoutDescriptor::binary().entries().to_vec(), vec![r, r, w]);
    assert_eq!(BindGroupLayoutDescriptor::binary_inplace().entries().to_vec(), vec![w, r]);
    assert_eq!(BindGroupLayoutDescriptor::ternary().entries().to_vec(), vec![r, r, r, w]);
    assert_eq!(BindGroupLayoutDescriptor::uniform().entries().to_vec(), vec![BindingType::DynamicUniform]);
}

#[test]
fn kernel_element_widths() {
    assert_eq!(u32::from(&KernelElement::Vec4), 4);
    assert_eq!(u32::from(&KernelElement::Vec2), 2);
    assert_eq!(u32::from(&KernelElement::Scalar), 1);
    assert_eq!(KernelElement::Vec4.as_str(), "vec4");
    assert_eq!(KernelElement::Vec2.as_str(), "vec2");
    assert_eq!(KernelElement::Scalar.as_str(), "scalar");
    assert_eq!(KernelElement::for_numel(8), KernelElement::Vec4);
    assert_eq!(KernelElement::for_numel(6), KernelElement::Vec2);
    assert_eq!(KernelElement::for_numel(7), KernelElement::Scalar);
    assert_eq!(KernelElement::for_numel(0), KernelElement::Vec4);
}

#[test]
fn buffer_pool_hands_out_freed_buffers_again() {
    let mut pool = BufferPool::new();
    let small = BufferDescriptor::storage(10).unwrap();
    assert_eq!(small.size, 12);
    assert_eq!(small.usage, BufferUsage::Storage);
    let a = pool.allocate(small);
    let b = pool.allocate(small);
    assert_ne!(a, b);
    assert_eq!(pool.len(), 2);
    pool.release(a);
    assert!(!pool.get(a).unwrap().in_use);
    assert!(pool.get(b).unwrap().in_use);
    // another size does not get the freed buffer
    let big = BufferDescriptor::storage(100).unwrap();
    let c = pool.allocate(big);
    assert_eq!(c.index, 2);
    // the same size does
    let d = pool.allocate(small);
    assert_eq!(d, a);
    assert_eq!(pool.len(), 3);
    assert!(pool.get(a).unwrap().in_use);
}

#[test]
fn buffer_sizes_are_rounded_up() {
    assert_eq!(BufferDescriptor::storage(0).unwrap().size, 4);
    assert_eq!(BufferDescriptor::storage(1).unwrap().size, 4);
    assert_eq!(BufferDescriptor::storage(4).unwrap().size, 4);
    assert_eq!(BufferDescriptor::storage(5).unwrap().size, 8);
    assert_eq!(BufferDescriptor::storage(24).unwrap().size, 24);
    assert!(BufferDescriptor::storage(usize::MAX).is_none());
    assert!(BufferDescriptor::storage(usize::MAX - 3).is_some());
}

#[test]
fn a_trimmed_pool_lets_the_oldest_idle_buffers_go() {
    let mut pool = BufferPool::new();
    assert_eq!(pool.soft_cap(), usize::MAX);
    let desc = |n: usize| BufferDescriptor::storage(n).unwrap();
    let a = pool.allocate(desc(4));
    let b = pool.allocate(desc(8));
    let c = pool.allocate(desc(12));
    let d = pool.allocate(desc(16));
    pool.release(c);
    pool.release(a);
    pool.release(b);
    assert_eq!(pool.idle(), 3);
    pool.trim();
    assert_eq!(pool.idle(), 3);
    pool.set_soft_cap(1);
    assert_eq!(pool.soft_cap(), 1);
    assert_eq!(pool.idle(), 1);
    // the one that was given back last is kept
    assert!(!pool.get(c).unwrap().resident);
    assert!(!pool.get(a).unwrap().resident);
    assert!(pool.get(b).unwrap().resident);
    assert!(pool.get(d).unwrap().resident);
    assert!(pool.get(d).unwrap().in_use);
    assert_eq!(pool.len(), 4);
    // a buffer that was let go is made again when it is asked for
    assert_eq!(pool.allocate(desc(12)), c);
    assert!(pool.get(c).unwrap().resident);
    assert_eq!(pool.idle(), 1);
    pool.set_soft_cap(0);
    assert_eq!(pool.idle(), 0);
    assert!(!pool.get(b).unwrap().resident);
    assert!(pool.get(c).unwrap().in_use);
}

#[test]
fn the_time_of_a_pool_goes_on_with_every_buffer_given_back() {
    let mut pool = BufferPool::new();
    assert_eq!(pool.now(), 0);
    let desc = BufferDescriptor::storage(8).unwrap();
    let a = pool.allocate(desc);
    let b = pool.allocate(desc);
    assert_eq!(pool.now(), 0);
    assert_eq!(pool.get(a).unwrap().freed_at, 0);
    pool.release(a);
    assert_eq!(pool.now(), 1);
    assert_eq!(pool.get(a).unwrap().freed_at, 0);
    pool.release(b);
    assert_eq!(pool.now(), 2);
    assert_eq!(pool.get(b).unwrap().freed_at, 1);
    // a buffer that is taken again keeps the time at which it was given back
    let again = pool.allocate(desc);
    assert_eq!(again, a);
    assert_eq!(pool.get(a).unwrap().freed_at, 0);
    assert_eq!(pool.now(), 2);
    pool.release(a);
    assert_eq!(pool.get(a).unwrap().freed_at, 2);
    assert_eq!(pool.now(), 3);
    pool.trim();
    assert_eq!(pool.now(), 3);
}
