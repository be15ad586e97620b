use mesh_batch::builder::{
    align_by, index_stride, BuildError, IndexType, Indices, MeshBuilder, MeshData, Primitive,
};
use mesh_batch::vertex::{Attribute, VertexFormat};

fn single(stride: u32, name: u32) -> VertexFormat {
    VertexFormat { stride, attributes: vec![Attribute { offset: 0, name, index: 0, format: 106 }] }
}

fn bytes_from(start: u8, len: usize) -> Vec<u8> {
    (0..len).map(|i| start.wrapping_add(i as u8)).collect()
}

#[test]
fn new_builder_is_empty_triangle_list() {
    let builder = MeshBuilder::new();
    assert!(builder.indices().is_none());
    let upload = builder.build(1).unwrap();
    assert_eq!(upload.prim, Primitive::TriangleList);
    assert_eq!(upload.vertex_count, 0);
    assert!(upload.vertex_layouts.is_empty());
}

#[test]
fn build_without_buffers_and_indices() {
    let upload = MeshBuilder::new().build(64).unwrap();
    assert_eq!(upload.vertex_count, 0);
    assert_eq!(upload.len, 0);
    assert_eq!(upload.index_type, None);
    assert!(upload.vertex_data.is_empty());
    assert_eq!(upload.staging_size, 0);
    assert!(upload.vertex_layouts.is_empty());
}

#[test]
fn build_three_buffers_of_8_10_and_6_elements() {
    let builder = MeshBuilder::new()
        .with_vertices(bytes_from(0, 8 * 12), single(12, 4))
        .with_vertices(bytes_from(100, 10 * 12), single(12, 3))
        .with_vertices(bytes_from(200, 6 * 12), single(12, 6));
    let upload = builder.build(64).unwrap();
    assert_eq!(upload.len, 6);
    assert_eq!(upload.vertex_count, 6);
    assert_eq!(upload.index_type, None);
    assert_eq!(upload.vertex_data.len(), 3 * 6 * 12);
    assert_eq!(upload.staging_size, 256);
}

#[test]
fn build_drops_the_data_behind_the_shortest_buffer() {
    let first = bytes_from(0, 8 * 12);
    let second = bytes_from(100, 10 * 12);
    let third = bytes_from(200, 6 * 12);
    let builder = MeshBuilder::new()
        .with_vertices(first.clone(), single(12, 4))
        .with_vertices(second.clone(), single(12, 3))
        .with_vertices(third.clone(), single(12, 6));
    let upload = builder.build(1).unwrap();
    let mut expected = Vec::new();
    expected.extend_from_slice(&first[..72]);
    expected.extend_from_slice(&second[..72]);
    expected.extend_from_slice(&third[..72]);
    assert_eq!(upload.vertex_data, expected);
    assert_eq!(upload.staging_size, 216);
}

#[test]
fn build_counts_whole_vertices_only() {
    // 25 bytes of stride 12 are two vertices, 40 bytes of stride 8 are five.
    let builder = MeshBuilder::new()
        .with_vertices(bytes_from(0, 25), single(12, 4))
        .with_vertices(bytes_from(50, 40), single(8, 6));
    let upload = builder.build(4).unwrap();
    assert_eq!(upload.vertex_count, 2);
    assert_eq!(upload.vertex_data.len(), 2 * 12 + 2 * 8);
    assert_eq!(&upload.vertex_data[..24], &bytes_from(0, 24)[..]);
    assert_eq!(&upload.vertex_data[24..], &bytes_from(50, 16)[..]);
    assert_eq!(upload.staging_size, 40);
}

#[test]
fn build_sorts_the_layouts_by_format_and_keeps_their_offsets() {
    let builder = MeshBuilder::new()
        .with_vertices(bytes_from(0, 36), single(12, 4))
        .with_vertices(bytes_from(0, 36), single(12, 3))
        .with_vertices(bytes_from(0, 24), single(8, 6));
    let upload = builder.build(1).unwrap();
    assert_eq!(upload.vertex_count, 3);
    let found: Vec<(u64, u32, u32)> = upload
        .vertex_layouts
        .iter()
        .map(|l| (l.offset, l.format.stride, l.format.attributes[0].name))
        .collect();
    assert_eq!(found, vec![(72, 8, 6), (36, 12, 3), (0, 12, 4)]);
}

#[test]
fn build_with_indices_counts_the_indices() {
    let builder = MeshBuilder::new()
        .with_vertices(bytes_from(0, 4 * 12), single(12, 4))
        .with_indices(Indices::U32(vec![0, 1, 2, 2, 1, 3]));
    let upload = builder.build(16).unwrap();
    assert_eq!(upload.vertex_count, 4);
    assert_eq!(upload.len, 6);
    assert_eq!(upload.index_type, Some(IndexType::U32));
    assert_eq!(upload.staging_size, 48);
}

#[test]
fn indices_are_kept_as_their_bytes_in_memory() {
    let values = vec![1u32, 2, 0x0102_0304];
    let builder = MeshBuilder::new().with_indices(Indices::U32(values.clone()));
    let raw = builder.indices().unwrap();
    let expected: Vec<u8> = values.iter().flat_map(|v| v.to_ne_bytes()).collect();
    assert_eq!(raw.indices, expected);
    assert_eq!(raw.indices.len(), 12);
    assert_eq!(raw.index_type, IndexType::U32);
}

#[test]
fn indices_from_a_vector() {
    let indices: Indices = vec![3u32, 4].into();
    match &indices {
        Indices::U32(values) => assert_eq!(*values, vec![3, 4]),
    }
    assert_eq!(MeshBuilder::new().with_indices(indices).build(1).unwrap().len, 2);
}

#[test]
fn set_indices_replaces_the_indices() {
    let mut builder = MeshBuilder::new();
    builder.set_indices(Indices::U32(vec![0, 1, 2]));
    builder.set_indices(Indices::U32(vec![5]));
    assert_eq!(builder.indices().unwrap().indices, 5u32.to_ne_bytes().to_vec());
    assert_eq!(builder.build(1).unwrap().len, 1);
}

#[test]
fn add_vertices_appends_in_order() {
    let mut builder = MeshBuilder::new();
    builder.add_vertices(bytes_from(1, 16), single(8, 6));
    builder.add_vertices(bytes_from(9, 16), single(8, 6));
    let upload = builder.build(1).unwrap();
    let mut expected = bytes_from(1, 16);
    expected.extend(bytes_from(9, 16));
    assert_eq!(upload.vertex_data, expected);
    let offsets: Vec<u64> = upload.vertex_layouts.iter().map(|l| l.offset).collect();
    let mut sorted = offsets.clone();
    sorted.sort();
    assert_eq!(sorted, vec![0, 16]);
}

#[test]
fn prim_type_is_handed_on() {
    let mut builder = MeshBuilder::new().with_prim_type(Primitive::LineStrip);
    assert_eq!(builder.build(1).unwrap().prim, Primitive::LineStrip);
    builder.set_prim_type(Primitive::PatchList(3));
    assert_eq!(builder.build(1).unwrap().prim, Primitive::PatchList(3));
}

#[test]
fn into_owned_keeps_the_builder() {
    let builder = MeshBuilder::new()
        .with_vertices(bytes_from(0, 24), single(12, 4))
        .with_indices(Indices::U32(vec![0, 1]))
        .with_prim_type(Primitive::PointList)
        .into_owned();
    let upload = builder.build(8).unwrap();
    assert_eq!(upload.vertex_count, 2);
    assert_eq!(upload.len, 2);
    assert_eq!(upload.prim, Primitive::PointList);
    assert_eq!(upload.vertex_data, bytes_from(0, 24));
}

#[test]
fn mesh_data_wraps_the_builder() {
    let data = MeshData::from(MeshBuilder::new().with_vertices(bytes_from(0, 12), single(12, 4)));
    assert_eq!(data.0.build(1).unwrap().vertex_count, 1);
}

#[test]
fn build_fails_on_zero_alignment() {
    let builder = MeshBuilder::new().with_vertices(bytes_from(0, 12), single(0, 4));
    assert_eq!(builder.build(0).unwrap_err(), BuildError::ZeroAlignment);
    assert_eq!(MeshBuilder::new().build(0).unwrap_err(), BuildError::ZeroAlignment);
}

#[test]
fn build_fails_on_zero_stride() {
    let builder = MeshBuilder::new()
        .with_vertices(bytes_from(0, 12), single(12, 4))
        .with_vertices(bytes_from(0, 12), single(0, 3));
    assert_eq!(builder.build(4).unwrap_err(), BuildError::ZeroStride);
}

#[test]
fn build_fails_where_the_aligned_size_does_not_fit() {
    let builder = MeshBuilder::new().with_vertices(bytes_from(0, 12), single(12, 4));
    assert_eq!(builder.build(usize::MAX).unwrap_err(), BuildError::TooLarge);
    assert_eq!(MeshBuilder::new().build(usize::MAX).unwrap().staging_size, 0);
}

#[test]
fn align_by_rounds_up_to_a_multiple() {
    assert_eq!(align_by(64, 0), 0);
    assert_eq!(align_by(64, 1), 64);
    assert_eq!(align_by(64, 64), 64);
    assert_eq!(align_by(64, 65), 128);
    assert_eq!(align_by(1, 77), 77);
    assert_eq!(align_by(3, 10), 12);
    assert_eq!(align_by(256, 216), 256);
}

#[test]
fn index_stride_is_the_width_of_an_index() {
    assert_eq!(index_stride(IndexType::U16), 2);
    assert_eq!(index_stride(IndexType::U32), 4);
}
