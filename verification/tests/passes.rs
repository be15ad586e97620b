use mesh_batch::batch::MeshRange;
use mesh_batch::builder::{Indices, MeshBuilder};
use mesh_batch::mesh::BackendMesh;
use mesh_batch::pass::{
    fill, frame_groups, frame_mesh_groups, frame_mesh_stream, frame_stream, instance_format,
    pipeline_settings, vertex_format, BaseDraw, BaseDrawDesc, BaseDrawTransparentDesc,
    ChangeDetection, CustomPassDef, DrawOutcome, FrameGroup, IRenderPassDef, MaterialBinding,
    PassState, PrepareResult, Renderable, VertexInputRate, FORMAT_RGBA32_SFLOAT,
    FORMAT_RGB32_SFLOAT, FORMAT_RG32_SFLOAT, NAME_MODEL, NAME_NORMAL, NAME_POSITION,
    NAME_TEX_COORD,
};
use mesh_batch::batch::OrderedBatch;
use mesh_batch::vertex::{Attribute, VertexFormat};

fn entity(materials: Vec<u32>, meshes: Vec<u32>, instance: u32) -> Renderable {
    Renderable { materials, meshes, instance }
}

fn bound(mesh: u32, id: u32, changed: bool, instances: Vec<u32>) -> FrameGroup {
    FrameGroup { mesh, mesh_loaded: true, binding: Some(MaterialBinding { id, changed }), instances }
}

fn full_mesh(vertices: usize) -> BackendMesh<u8> {
    MeshBuilder::new()
        .with_vertices(vec![0; vertices * 32], vertex_format())
        .build(64)
        .unwrap()
        .into_mesh(1, None)
}

fn positions_only(vertices: usize) -> BackendMesh<u8> {
    let format = VertexFormat {
        stride: 12,
        attributes: vec![Attribute { offset: 0, name: NAME_POSITION, index: 0, format: FORMAT_RGB32_SFLOAT }],
    };
    MeshBuilder::new()
        .with_vertices(vec![0; vertices * 12], format)
        .with_indices(Indices::U32(vec![0, 1, 2]))
        .build(64)
        .unwrap()
        .into_mesh(2, Some(3))
}

fn opaque_pass() -> BaseDraw {
    BaseDrawDesc::new().build::<CustomPassDef>().pass
}

#[test]
fn vertex_format_has_position_normal_and_tex_coord() {
    let format = vertex_format();
    assert_eq!(format.stride, 32);
    assert_eq!(
        format.attributes,
        vec![
            Attribute { offset: 0, name: NAME_POSITION, index: 0, format: FORMAT_RGB32_SFLOAT },
            Attribute { offset: 12, name: NAME_NORMAL, index: 0, format: FORMAT_RGB32_SFLOAT },
            Attribute { offset: 24, name: NAME_TEX_COORD, index: 0, format: FORMAT_RG32_SFLOAT },
        ]
    );
}

#[test]
fn instance_format_is_a_matrix_of_four_columns() {
    let format = instance_format();
    assert_eq!(format.stride, 64);
    assert_eq!(format.attributes.len(), 4);
    for (i, attribute) in format.attributes.iter().enumerate() {
        assert_eq!(
            *attribute,
            Attribute {
                offset: 16 * i as u32,
                name: NAME_MODEL,
                index: i as u8,
                format: FORMAT_RGBA32_SFLOAT
            }
        );
    }
}

#[test]
fn custom_pass_needs_one_buffer_of_full_vertices() {
    assert_eq!(CustomPassDef::base_format(), vec![vertex_format()]);
    assert_eq!(CustomPassDef::formats(), vec![vertex_format()]);
    assert_eq!(CustomPassDef::name(), "Render 3d");
}

#[test]
fn frame_stream_pairs_materials_and_meshes_by_position() {
    let visible = vec![entity(vec![1, 2], vec![10, 11], 7), entity(vec![3], vec![12], 8)];
    assert_eq!(frame_stream(&visible), vec![(1, 10, 7), (2, 11, 7), (3, 12, 8)]);
}

#[test]
fn frame_stream_stops_at_the_shorter_list() {
    let visible = vec![
        entity(vec![1, 2, 3], vec![10, 11], 0),
        entity(vec![4], vec![12, 13, 14], 1),
        entity(vec![], vec![15], 2),
        entity(vec![5], vec![], 3),
    ];
    assert_eq!(frame_stream(&visible), vec![(1, 10, 0), (2, 11, 0), (4, 12, 1)]);
    assert!(frame_stream(&[]).is_empty());
}

#[test]
fn frame_mesh_stream_takes_every_mesh_under_material_zero() {
    let visible = vec![entity(vec![9], vec![10, 11], 7), entity(vec![], vec![12], 8)];
    assert_eq!(frame_mesh_stream(&visible), vec![(0, 10, 7), (0, 11, 7), (0, 12, 8)]);
}

#[test]
fn frame_groups_joins_entities_that_follow_each_other() {
    let visible = vec![
        entity(vec![1], vec![10], 0),
        entity(vec![1], vec![10], 1),
        entity(vec![1], vec![11], 2),
        entity(vec![1], vec![10], 3),
    ];
    let groups: Vec<(u32, u32, Vec<u32>)> = frame_groups(&visible)
        .into_iter()
        .map(|g| (g.material, g.mesh, g.instances))
        .collect();
    assert_eq!(groups, vec![(1, 10, vec![0, 1]), (1, 11, vec![2]), (1, 10, vec![3])]);
}

#[test]
fn frame_mesh_groups_joins_by_mesh() {
    let visible = vec![entity(vec![1], vec![10], 0), entity(vec![2], vec![10], 1)];
    let groups: Vec<(u32, u32, Vec<u32>)> = frame_mesh_groups(&visible)
        .into_iter()
        .map(|g| (g.material, g.mesh, g.instances))
        .collect();
    assert_eq!(groups, vec![(0, 10, vec![0, 1])]);
}

#[test]
fn fill_inserts_the_admitted_groups_only() {
    let mut batch = OrderedBatch::new();
    let groups = vec![
        bound(10, 1, false, vec![0]),
        FrameGroup { mesh: 11, mesh_loaded: false, binding: Some(MaterialBinding { id: 1, changed: true }), instances: vec![1] },
        FrameGroup { mesh: 12, mesh_loaded: true, binding: None, instances: vec![2] },
        bound(13, 2, false, vec![3, 4]),
    ];
    let rebound = fill(&mut batch, &groups, true);
    assert!(!rebound);
    assert_eq!(batch.keys(), vec![(1, 10), (2, 13)]);
    assert_eq!(batch.data(), vec![0, 3, 4]);
}

#[test]
fn fill_reports_a_binding_that_changed() {
    let mut batch = OrderedBatch::new();
    assert!(fill(&mut batch, &[bound(10, 1, false, vec![0]), bound(11, 1, true, vec![1])], true));
    let mut other = OrderedBatch::new();
    assert!(!fill(&mut other, &[bound(10, 1, true, vec![0])], false));
    assert_eq!(other.keys(), vec![(0, 10)]);
}

#[test]
fn fill_without_materials_takes_every_loaded_mesh_under_material_zero() {
    let mut batch = OrderedBatch::new();
    let groups = vec![
        FrameGroup { mesh: 10, mesh_loaded: true, binding: None, instances: vec![0] },
        FrameGroup { mesh: 11, mesh_loaded: false, binding: None, instances: vec![1] },
        bound(12, 5, true, vec![2]),
    ];
    assert!(!fill(&mut batch, &groups, false));
    assert_eq!(batch.keys(), vec![(0, 10), (0, 12)]);
    assert_eq!(batch.data(), vec![0, 2]);
}

#[test]
fn pass_setup_of_the_opaque_pass() {
    let setup = BaseDrawDesc::new().build::<CustomPassDef>();
    assert!(setup.pipeline.depth_write);
    assert!(!setup.pipeline.blend_premultiplied_alpha);
    assert!(setup.pipeline.cull_back_faces);
    assert_eq!(setup.pipeline.vertex_desc.len(), 2);
    assert_eq!(setup.pipeline.vertex_desc[0].format, vertex_format());
    assert_eq!(setup.pipeline.vertex_desc[0].rate, VertexInputRate::Vertex);
    assert_eq!(setup.pipeline.vertex_desc[1].format, instance_format());
    assert_eq!(setup.pipeline.vertex_desc[1].rate, VertexInputRate::Instance(1));
    assert!(setup.pass.binds_materials());
    assert_eq!(setup.pass.pass_state(), PassState::Uninitialized);
    assert_eq!(setup.pass.change_detection(), ChangeDetection::Stable);
    assert_eq!(*setup.pass.vertex_format_base(), vec![vertex_format()]);
}

#[test]
fn pass_setup_of_the_transparent_pass() {
    let setup = BaseDrawTransparentDesc::new().build::<CustomPassDef>();
    assert!(!setup.pipeline.depth_write);
    assert!(setup.pipeline.blend_premultiplied_alpha);
    assert!(setup.pipeline.cull_back_faces);
    assert!(!setup.pass.binds_materials());
}

#[test]
fn pipeline_settings_put_the_instances_last() {
    let settings = pipeline_settings(&[], true);
    assert_eq!(settings.vertex_desc.len(), 1);
    assert_eq!(settings.vertex_desc[0].format, instance_format());
    assert_eq!(settings.vertex_desc[0].rate, VertexInputRate::Instance(1));
}

#[test]
fn new_pass_sorts_its_formats() {
    let small = VertexFormat { stride: 8, attributes: vec![] };
    let pass = BaseDraw::new(vec![vertex_format(), small.clone(), instance_format()], true);
    assert_eq!(*pass.vertex_format_base(), vec![small, vertex_format(), instance_format()]);
}

#[test]
fn prepare_fills_the_batch_and_hands_out_the_instances() {
    let mut pass = opaque_pass();
    let prepared = pass
        .prepare(0, &[bound(10, 1, false, vec![5, 6]), bound(11, 1, false, vec![7])])
        .unwrap();
    assert_eq!(prepared.instances, vec![5, 6, 7]);
    assert_eq!(prepared.result, PrepareResult::DrawRecord);
    assert_eq!(pass.pass_state(), PassState::Prepared(0));
    assert_eq!(pass.change_detection(), ChangeDetection::Changed(0));
    assert_eq!(pass.instance_count(), 3);
    let groups = pass.groups();
    assert_eq!(groups.len(), 1);
    assert_eq!(groups[0].material, 1);
    assert_eq!(
        groups[0].meshes,
        vec![MeshRange { mesh: 10, start: 0, end: 2 }, MeshRange { mesh: 11, start: 2, end: 3 }]
    );
}

#[test]
fn prepare_of_an_empty_frame_reuses() {
    let mut pass = opaque_pass();
    let prepared = pass.prepare(0, &[]).unwrap();
    assert_eq!(prepared.result, PrepareResult::DrawReuse);
    assert!(prepared.instances.is_empty());
    assert_eq!(pass.change_detection(), ChangeDetection::Stable);
}

#[test]
fn prepare_records_until_the_image_of_the_change_comes_round() {
    let frame = || vec![bound(10, 1, false, vec![1])];
    let mut pass = opaque_pass();
    assert_eq!(pass.prepare(0, &frame()).unwrap().result, PrepareResult::DrawRecord);
    assert_eq!(pass.change_detection(), ChangeDetection::Changed(0));
    assert_eq!(pass.prepare(1, &frame()).unwrap().result, PrepareResult::DrawRecord);
    assert_eq!(pass.change_detection(), ChangeDetection::Changed(0));
    assert_eq!(pass.prepare(2, &frame()).unwrap().result, PrepareResult::DrawRecord);
    assert_eq!(pass.prepare(0, &frame()).unwrap().result, PrepareResult::DrawReuse);
    assert_eq!(pass.change_detection(), ChangeDetection::Stable);
    assert_eq!(pass.prepare(1, &frame()).unwrap().result, PrepareResult::DrawReuse);
}

#[test]
fn prepare_records_where_a_material_was_bound_anew() {
    let mut pass = opaque_pass();
    pass.prepare(0, &[bound(10, 1, false, vec![1])]).unwrap();
    pass.prepare(0, &[bound(10, 1, false, vec![1])]).unwrap();
    assert_eq!(pass.change_detection(), ChangeDetection::Stable);
    let prepared = pass.prepare(1, &[bound(10, 1, true, vec![1])]).unwrap();
    assert_eq!(prepared.result, PrepareResult::DrawRecord);
    assert_eq!(pass.change_detection(), ChangeDetection::Changed(1));
}

#[test]
fn prepare_does_not_record_for_more_instances_of_the_same_keys() {
    let mut pass = opaque_pass();
    pass.prepare(0, &[bound(10, 1, false, vec![1])]).unwrap();
    pass.prepare(0, &[bound(10, 1, false, vec![1])]).unwrap();
    let prepared = pass.prepare(0, &[bound(10, 1, false, vec![1, 2, 3])]).unwrap();
    assert_eq!(prepared.result, PrepareResult::DrawReuse);
    assert_eq!(prepared.instances, vec![1, 2, 3]);
}

#[test]
fn draw_binds_each_loaded_material_and_draws_its_meshes() {
    let mut pass = opaque_pass();
    pass.prepare(3, &[
        bound(10, 1, false, vec![0, 1]),
        bound(11, 1, false, vec![2]),
        bound(10, 2, false, vec![3]),
    ])
    .unwrap();
    let mesh_a = full_mesh(4);
    let mesh_b = full_mesh(9);
    let meshes = vec![vec![Some(&mesh_a), Some(&mesh_b)], vec![Some(&mesh_a)]];
    let draws = pass.draw_inline(3, true, &[true, true], &meshes);
    assert_eq!(pass.pass_state(), PassState::Drawn(3));
    assert_eq!(draws.len(), 2);
    assert_eq!(draws[0].material, 1);
    assert!(draws[0].bind_material);
    assert_eq!(draws[0].draws.len(), 2);
    assert_eq!(draws[0].draws[0].range, MeshRange { mesh: 10, start: 0, end: 2 });
    match &draws[0].draws[0].outcome {
        DrawOutcome::Drawn(call) => {
            assert!(!call.indexed);
            assert_eq!(call.vertices, 0..4);
            assert_eq!(call.instances, 0..2);
            assert_eq!(call.binding.first_binding, 0);
            assert_eq!(call.binding.offsets, vec![0]);
        }
        other => panic!("not drawn: {:?}", other),
    }
    match &draws[0].draws[1].outcome {
        DrawOutcome::Drawn(call) => {
            assert_eq!(call.vertices, 0..9);
            assert_eq!(call.instances, 2..3);
        }
        other => panic!("not drawn: {:?}", other),
    }
    assert_eq!(draws[1].material, 2);
    match &draws[1].draws[0].outcome {
        DrawOutcome::Drawn(call) => assert_eq!(call.instances, 3..4),
        other => panic!("not drawn: {:?}", other),
    }
}

#[test]
fn draw_skips_a_material_that_is_not_loaded() {
    let mut pass = opaque_pass();
    pass.prepare(0, &[bound(10, 1, false, vec![0]), bound(10, 2, false, vec![1])]).unwrap();
    let mesh = full_mesh(3);
    let meshes = vec![vec![Some(&mesh)], vec![Some(&mesh)]];
    let draws = pass.draw_inline(0, true, &[false, true], &meshes);
    assert_eq!(draws.len(), 2);
    assert!(!draws[0].bind_material);
    assert!(draws[0].draws.is_empty());
    assert!(draws[1].bind_material);
    match &draws[1].draws[0].outcome {
        DrawOutcome::Drawn(call) => assert_eq!(call.instances, 1..2),
        other => panic!("not drawn: {:?}", other),
    }
}

#[test]
fn draw_skips_a_mesh_that_lacks_a_format_and_goes_on() {
    let mut pass = opaque_pass();
    pass.prepare(0, &[bound(10, 1, false, vec![0]), bound(11, 1, false, vec![1])]).unwrap();
    let lacking = positions_only(3);
    let mesh = full_mesh(3);
    let meshes = vec![vec![Some(&lacking), Some(&mesh)]];
    let draws = pass.draw_inline(0, true, &[true], &meshes);
    match &draws[0].draws[0].outcome {
        DrawOutcome::Skipped(error) => {
            assert_eq!(error.not_found, vertex_format());
            assert_eq!(error.in_formats.len(), 1);
            assert_eq!(error.in_formats[0].stride, 12);
        }
        other => panic!("not skipped: {:?}", other),
    }
    assert!(matches!(draws[0].draws[1].outcome, DrawOutcome::Drawn(_)));
}

#[test]
fn draw_leaves_out_a_mesh_that_is_not_in_the_storage() {
    let mut pass = opaque_pass();
    pass.prepare(0, &[bound(10, 1, false, vec![0]), bound(11, 1, false, vec![1])]).unwrap();
    let mesh = full_mesh(3);
    let meshes = vec![vec![None, Some(&mesh)]];
    let draws = pass.draw_inline(0, true, &[true], &meshes);
    assert!(matches!(draws[0].draws[0].outcome, DrawOutcome::Missing));
    assert!(matches!(draws[0].draws[1].outcome, DrawOutcome::Drawn(_)));
    // Lists that do not reach a group or a mesh stand for nothing loaded.
    let mut again = opaque_pass();
    again.prepare(0, &[bound(10, 1, false, vec![0])]).unwrap();
    let draws = again.draw_inline::<u8>(0, true, &[true], &[]);
    assert!(matches!(draws[0].draws[0].outcome, DrawOutcome::Missing));
    let mut third = opaque_pass();
    third.prepare(0, &[bound(10, 1, false, vec![0])]).unwrap();
    let draws = third.draw_inline::<u8>(0, true, &[], &[]);
    assert!(draws[0].draws.is_empty());
}

#[test]
fn draw_needs_the_frame_to_be_prepared() {
    let mut pass = opaque_pass();
    assert!(pass.draw_inline::<u8>(0, true, &[], &[]).is_empty());
    assert_eq!(pass.pass_state(), PassState::Uninitialized);
    pass.prepare(1, &[bound(10, 1, false, vec![0])]).unwrap();
    assert!(pass.draw_inline::<u8>(0, true, &[true], &[]).is_empty());
    assert_eq!(pass.pass_state(), PassState::Prepared(1));
    assert_eq!(pass.draw_inline::<u8>(1, true, &[true], &[]).len(), 1);
    assert_eq!(pass.pass_state(), PassState::Drawn(1));
    assert!(pass.draw_inline::<u8>(1, true, &[true], &[]).is_empty());
}

#[test]
fn draw_without_the_instance_buffer_draws_nothing() {
    let mut pass = opaque_pass();
    pass.prepare(0, &[bound(10, 1, false, vec![0])]).unwrap();
    assert!(pass.draw_inline::<u8>(0, false, &[true], &[]).is_empty());
    assert_eq!(pass.pass_state(), PassState::Drawn(0));
}

#[test]
fn transparent_pass_draws_every_loaded_mesh_in_order_without_materials() {
    let mut pass = BaseDrawTransparentDesc::new().build::<CustomPassDef>().pass;
    let groups = vec![
        FrameGroup { mesh: 12, mesh_loaded: true, binding: None, instances: vec![0] },
        FrameGroup { mesh: 10, mesh_loaded: true, binding: None, instances: vec![1, 2] },
        FrameGroup { mesh: 12, mesh_loaded: true, binding: None, instances: vec![3] },
    ];
    let prepared = pass.prepare(0, &groups).unwrap();
    assert_eq!(prepared.instances, vec![0, 1, 2, 3]);
    let mesh = full_mesh(6);
    let meshes = vec![vec![Some(&mesh), Some(&mesh), Some(&mesh)]];
    let draws = pass.draw_inline(0, true, &[], &meshes);
    assert_eq!(draws.len(), 1);
    assert_eq!(draws[0].material, 0);
    assert!(!draws[0].bind_material);
    let ranges: Vec<MeshRange> = draws[0].draws.iter().map(|d| d.range).collect();
    assert_eq!(
        ranges,
        vec![
            MeshRange { mesh: 12, start: 0, end: 1 },
            MeshRange { mesh: 10, start: 1, end: 3 },
            MeshRange { mesh: 12, start: 3, end: 4 },
        ]
    );
    assert!(draws[0].draws.iter().all(|d| matches!(d.outcome, DrawOutcome::Drawn(_))));
}

#[test]
fn dispose_releases_once() {
    let mut pass = opaque_pass();
    assert!(pass.dispose());
    assert_eq!(pass.pass_state(), PassState::Disposed);
    assert!(!pass.dispose());
    assert_eq!(pass.pass_state(), PassState::Disposed);
}

#[test]
fn disposed_pass_prepares_and_draws_nothing() {
    let mut pass = opaque_pass();
    pass.prepare(0, &[bound(10, 1, false, vec![0])]).unwrap();
    assert!(pass.dispose());
    assert!(pass.prepare(1, &[bound(10, 1, false, vec![0])]).is_none());
    assert!(pass.draw_inline::<u8>(0, true, &[true], &[]).is_empty());
    assert_eq!(pass.pass_state(), PassState::Disposed);
    assert_eq!(pass.instance_count(), 1);
}
