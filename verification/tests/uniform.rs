use ratchet::uniform::{pack, CpuUniform, MetaField, UVec4};

#[test]
fn a_scalar_is_four_bytes() {
    assert_eq!(pack(&vec![MetaField::Scalar(0x04030201)]), vec![1, 2, 3, 4]);
    assert_eq!(pack(&vec![]), Vec::<u8>::new());
    assert_eq!(
        pack(&vec![MetaField::Scalar(1), MetaField::Scalar(2)]),
        vec![1, 0, 0, 0, 2, 0, 0, 0]
    );
}

#[test]
fn a_vector_is_aligned_to_sixteen_bytes() {
    let fields = vec![MetaField::Scalar(7), MetaField::Vec4(1, 2, 3, 4), MetaField::Scalar(9)];
    let bytes = pack(&fields);
    assert_eq!(bytes.len(), 48);
    let words: Vec<u32> = bytes
        .chunks(4)
        .map(|c| u32::from_le_bytes([c[0], c[1], c[2], c[3]]))
        .collect();
    assert_eq!(words, vec![7, 0, 0, 0, 1, 2, 3, 4, 9, 0, 0, 0]);
    assert_eq!(UVec4 { x: 1, y: 2, z: 3, w: 4 }.field(), MetaField::Vec4(1, 2, 3, 4));
}

#[test]
fn scalars_and_vectors_are_written_as_encase_writes_them() {
    let mut theirs = encase::UniformBuffer::new(Vec::<u8>::new());
    theirs.write(&glam::UVec4::new(0xdeadbeef, 2, 3, u32::MAX)).unwrap();
    assert_eq!(
        pack(&vec![MetaField::Vec4(0xdeadbeef, 2, 3, u32::MAX)]),
        theirs.into_inner()
    );
    let mut theirs = encase::UniformBuffer::new(Vec::<u8>::new());
    theirs.write(&0x01020304u32).unwrap();
    assert_eq!(pack(&vec![MetaField::Scalar(0x01020304)]), theirs.into_inner());
}

#[test]
fn records_start_at_multiples_of_the_alignment() {
    let mut ours = CpuUniform::new();
    let mut theirs = encase::DynamicUniformBuffer::new(Vec::<u8>::new());
    let first = ours.write(&vec![MetaField::Vec4(1, 2, 3, 4)]).unwrap();
    assert_eq!(first, theirs.write(&glam::UVec4::new(1, 2, 3, 4)).unwrap());
    assert_eq!(first, 0);
    assert_eq!(ours.offset(), 256);
    let second = ours.write(&vec![MetaField::Scalar(5)]).unwrap();
    assert_eq!(second, theirs.write(&5u32).unwrap());
    assert_eq!(second, 256);
    let third = ours.write(&vec![MetaField::Vec4(6, 7, 8, 9)]).unwrap();
    assert_eq!(third, theirs.write(&glam::UVec4::new(6, 7, 8, 9)).unwrap());
    assert_eq!(third, 512);
    assert_eq!(ours.as_bytes(), theirs.into_inner().as_slice());
    assert_eq!(ours.as_bytes().len(), 528);
    assert_eq!(&ours.as_bytes()[16..256], &[0u8; 240]);
    assert_eq!(&ours.as_bytes()[256..260], &[5, 0, 0, 0]);
}

#[test]
fn a_record_larger_than_the_alignment_takes_more_than_one_step() {
    let mut uniform = CpuUniform::new();
    let fields: Vec<MetaField> = (0..17).map(|i| MetaField::Vec4(i, i, i, i)).collect();
    assert_eq!(uniform.write(&fields), Ok(0));
    assert_eq!(uniform.offset(), 512);
    assert_eq!(uniform.write(&vec![MetaField::Scalar(1)]), Ok(512));
    assert_eq!(uniform.into_bytes().len(), 516);
}
