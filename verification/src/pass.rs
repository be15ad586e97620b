//! Render pass orchestration: what a pass puts into its instance batch when
//! a frame is prepared, and what it binds and draws when the frame is drawn.
use crate::batch::{
    group_instances, group_views, grouped, groups_match, insert_runs, run_data,
    run_keys, run_total, runs_admit, InstanceGroup, MaterialGroup, MeshRange, OrderedBatch,
};
use crate::mesh::{BackendMesh, DrawCall};
use crate::resolve::Incompatible;
use crate::vertex::{
    format_order, format_views, formats_sorted, Attribute, FormatSpec, VertexFormat,
};
use vstd::prelude::*;

verus! {

/// Name of the color attribute.
pub const NAME_COLOR: u32 = 1;

/// Name of the model matrix attribute.
pub const NAME_MODEL: u32 = 2;

/// Name of the normal attribute.
pub const NAME_NORMAL: u32 = 3;

/// Name of the position attribute.
pub const NAME_POSITION: u32 = 4;

/// Name of the tangent attribute.
pub const NAME_TANGENT: u32 = 5;

/// Name of the texture coordinate attribute.
pub const NAME_TEX_COORD: u32 = 6;

/// Type tag of two 32-bit floats.
pub const FORMAT_RG32_SFLOAT: u32 = 103;

/// Type tag of three 32-bit floats.
pub const FORMAT_RGB32_SFLOAT: u32 = 106;

/// Type tag of four 32-bit floats.
pub const FORMAT_RGBA32_SFLOAT: u32 = 109;

/// The format of a vertex with position, normal and texture coordinate.
pub open spec fn vertex_format_spec() -> FormatSpec {
    FormatSpec {
        stride: 32,
        attributes: seq![
            Attribute { offset: 0, name: NAME_POSITION, index: 0, format: FORMAT_RGB32_SFLOAT },
            Attribute { offset: 12, name: NAME_NORMAL, index: 0, format: FORMAT_RGB32_SFLOAT },
            Attribute { offset: 24, name: NAME_TEX_COORD, index: 0, format: FORMAT_RG32_SFLOAT },
        ],
    }
}

/// The format of a vertex with position, normal and texture coordinate.
pub fn vertex_format() -> (format: VertexFormat)
    ensures
        format@ == vertex_format_spec(),
{
    let mut attributes: Vec<Attribute> = Vec::new();
    attributes.push(
        Attribute { offset: 0, name: NAME_POSITION, index: 0, format: FORMAT_RGB32_SFLOAT },
    );
    attributes.push(
        Attribute { offset: 12, name: NAME_NORMAL, index: 0, format: FORMAT_RGB32_SFLOAT },
    );
    attributes.push(
        Attribute { offset: 24, name: NAME_TEX_COORD, index: 0, format: FORMAT_RG32_SFLOAT },
    );
    let format = VertexFormat { stride: 32, attributes };
    assert(format@.attributes =~= vertex_format_spec().attributes);
    format
}

/// The format of the arguments of an instance: the model matrix, one
/// attribute of four floats for each of its four columns.
pub open spec fn instance_format_spec() -> FormatSpec {
    FormatSpec {
        stride: 64,
        attributes: seq![
            Attribute { offset: 0, name: NAME_MODEL, index: 0, format: FORMAT_RGBA32_SFLOAT },
            Attribute { offset: 16, name: NAME_MODEL, index: 1, format: FORMAT_RGBA32_SFLOAT },
            Attribute { offset: 32, name: NAME_MODEL, index: 2, format: FORMAT_RGBA32_SFLOAT },
            Attribute { offset: 48, name: NAME_MODEL, index: 3, format: FORMAT_RGBA32_SFLOAT },
        ],
    }
}

/// The format of the arguments of an instance.
pub fn instance_format() -> (format: VertexFormat)
    ensures
        format@ == instance_format_spec(),
{
    let mut attributes: Vec<Attribute> = Vec::new();
    attributes.push(
        Attribute { offset: 0, name: NAME_MODEL, index: 0, format: FORMAT_RGBA32_SFLOAT },
    );
    attributes.push(
        Attribute { offset: 16, name: NAME_MODEL, index: 1, format: FORMAT_RGBA32_SFLOAT },
    );
    attributes.push(
        Attribute { offset: 32, name: NAME_MODEL, index: 2, format: FORMAT_RGBA32_SFLOAT },
    );
    attributes.push(
        Attribute { offset: 48, name: NAME_MODEL, index: 3, format: FORMAT_RGBA32_SFLOAT },
    );
    let format = VertexFormat { stride: 64, attributes };
    assert(format@.attributes =~= instance_format_spec().attributes);
    format
}

/// What a pass is made for: its name and the vertex formats that it needs of every mesh.
pub trait IRenderPassDef {
    /// Name of the pass.
    fn name() -> &'static str;

    /// The vertex formats that the pass needs of every mesh.
    fn base_format() -> Vec<VertexFormat>;
}

/// A simple shaded 3D pass.
#[derive(Debug)]
pub struct CustomPassDef;

impl CustomPassDef {
    /// The pass needs position, normal and texture coordinate of every vertex, in one buffer.
    pub fn formats() -> (formats: Vec<VertexFormat>)
        ensures
            format_views(formats@) == seq![vertex_format_spec()],
    {
        let mut formats: Vec<VertexFormat> = Vec::new();
        formats.push(vertex_format());
        assert(format_views(formats@) =~= seq![vertex_format_spec()]);
        formats
    }
}

impl IRenderPassDef for CustomPassDef {
    fn name() -> (name: &'static str)
        ensures
            name@ == "Render 3d"@,
    {
        "Render 3d"
    }

    fn base_format() -> (formats: Vec<VertexFormat>)
        ensures
            format_views(formats@) == seq![vertex_format_spec()],
    {
        CustomPassDef::formats()
    }
}

/// Tracks whether the draw commands of the images in flight are up to date.
#[derive(Clone, Copy, Debug, PartialEq, Eq, Structural)]
pub enum ChangeDetection {
    /// Has not changed, considered stable.
    Stable,
    /// Change occurred, index of the image at which it occurred.
    Changed(usize),
}

/// Whether the draw commands of a frame have to be recorded anew.
#[derive(Clone, Copy, Debug, PartialEq, Eq, Structural)]
pub enum PrepareResult {
    /// Force record draw commands.
    DrawRecord,
    /// Reuse draw commands.
    DrawReuse,
}

/// The change detection after a frame and what the frame has to do: a
/// change is recorded and remembered with its image; without a change the
/// commands are reused once the image of the last change comes round again.
pub open spec fn prepare_outcome(change: ChangeDetection, index: usize, changed: bool) -> (
    ChangeDetection,
    PrepareResult,
) {
    if changed {
        (ChangeDetection::Changed(index), PrepareResult::DrawRecord)
    } else {
        match change {
            ChangeDetection::Stable => (ChangeDetection::Stable, PrepareResult::DrawReuse),
            ChangeDetection::Changed(at) => if at == index {
                (ChangeDetection::Stable, PrepareResult::DrawReuse)
            } else {
                (change, PrepareResult::DrawRecord)
            },
        }
    }
}

/// `amethyst_rendy::util::ChangeDetection::prepare_result`: the state after
/// the call and the result of the call, as `prepare_outcome` gives them.
#[verifier::external_body]
fn change_prepare_result(change: ChangeDetection, index: usize, changed: bool) -> (r: (
    ChangeDetection,
    PrepareResult,
))
    ensures
        r == prepare_outcome(change, index, changed),
{
    let mut outside = match change {
        ChangeDetection::Stable => amethyst_rendy::util::ChangeDetection::Stable,
        ChangeDetection::Changed(at) => amethyst_rendy::util::ChangeDetection::Changed(at),
    };
    let result = outside.prepare_result(index, changed);
    let after = match outside {
        amethyst_rendy::util::ChangeDetection::Stable => ChangeDetection::Stable,
        amethyst_rendy::util::ChangeDetection::Changed(at) => ChangeDetection::Changed(at),
    };
    match result {
        amethyst_rendy::rendy::graph::render::PrepareResult::DrawRecord => (after, PrepareResult::DrawRecord),
        amethyst_rendy::rendy::graph::render::PrepareResult::DrawReuse => (after, PrepareResult::DrawReuse),
    }
}

/// A visible entity: the materials and the meshes of its elements, paired
/// by position, and the instance that stands for its transform.
#[derive(Debug)]
pub struct Renderable {
    pub materials: Vec<u32>,
    pub meshes: Vec<u32>,
    pub instance: u32,
}

/// The elements of an entity as `(material, mesh, instance)`: as many as
/// the shorter of its two lists has.
pub open spec fn entity_stream(entity: Renderable) -> Seq<(u32, u32, u32)> {
    Seq::new(
        if entity.materials@.len() <= entity.meshes@.len() {
            entity.materials@.len()
        } else {
            entity.meshes@.len()
        },
        |i: int| (entity.materials@[i], entity.meshes@[i], entity.instance),
    )
}

/// The elements of all visible entities, in the order of visibility.
pub open spec fn visible_stream(visible: Seq<Renderable>) -> Seq<(u32, u32, u32)>
    decreases visible.len(),
{
    if visible.len() == 0 {
        Seq::empty()
    } else {
        visible_stream(visible.drop_last()) + entity_stream(visible.last())
    }
}

/// The mesh elements of an entity as `(0, mesh, instance)`.
pub open spec fn entity_mesh_stream(entity: Renderable) -> Seq<(u32, u32, u32)> {
    Seq::new(entity.meshes@.len(), |i: int| (0u32, entity.meshes@[i], entity.instance))
}

/// The mesh elements of all visible entities under material 0, in the order of visibility.
pub open spec fn visible_mesh_stream(visible: Seq<Renderable>) -> Seq<(u32, u32, u32)>
    decreases visible.len(),
{
    if visible.len() == 0 {
        Seq::empty()
    } else {
        visible_mesh_stream(visible.drop_last()) + entity_mesh_stream(visible.last())
    }
}

/// The elements of all visible entities with their materials, in the order of visibility.
pub fn frame_stream(visible: &[Renderable]) -> (stream: Vec<(u32, u32, u32)>)
    ensures
        stream@ == visible_stream(visible@),
{
    let mut stream: Vec<(u32, u32, u32)> = Vec::new();
    let mut e: usize = 0;
    while e < visible.len()
        invariant
            e <= visible@.len(),
            stream@ == visible_stream(visible@.take(e as int)),
        decreases visible@.len() - e,
    {
        let entity = &visible[e];
        let ghost before = stream@;
        let mut i: usize = 0;
        while i < entity.materials.len() && i < entity.meshes.len()
            invariant
                i <= entity.materials@.len(),
                i <= entity.meshes@.len(),
                stream@ == before + entity_stream(*entity).take(i as int),
            decreases entity.materials@.len() - i,
        {
            stream.push((entity.materials[i], entity.meshes[i], entity.instance));
            assert(stream@ =~= before + entity_stream(*entity).take(i + 1));
            i += 1;
        }
        proof {
            assert(entity_stream(*entity).take(i as int) =~= entity_stream(*entity));
            assert(visible@.take(e + 1).drop_last() =~= visible@.take(e as int));
            assert(visible@.take(e + 1).last() == visible@[e as int]);
        }
        e += 1;
    }
    proof {
        assert(visible@.take(e as int) =~= visible@);
    }
    stream
}

/// The mesh elements of all visible entities under material 0, in the order of visibility.
pub fn frame_mesh_stream(visible: &[Renderable]) -> (stream: Vec<(u32, u32, u32)>)
    ensures
        stream@ == visible_mesh_stream(visible@),
{
    let mut stream: Vec<(u32, u32, u32)> = Vec::new();
    let mut e: usize = 0;
    while e < visible.len()
        invariant
            e <= visible@.len(),
            stream@ == visible_mesh_stream(visible@.take(e as int)),
        decreases visible@.len() - e,
    {
        let entity = &visible[e];
        let ghost before = stream@;
        let mut i: usize = 0;
        while i < entity.meshes.len()
            invariant
                i <= entity.meshes@.len(),
                stream@ == before + entity_mesh_stream(*entity).take(i as int),
            decreases entity.meshes@.len() - i,
        {
            stream.push((0, entity.meshes[i], entity.instance));
            assert(stream@ =~= before + entity_mesh_stream(*entity).take(i + 1));
            i += 1;
        }
        proof {
            assert(entity_mesh_stream(*entity).take(i as int) =~= entity_mesh_stream(*entity));
            assert(visible@.take(e + 1).drop_last() =~= visible@.take(e as int));
            assert(visible@.take(e + 1).last() == visible@[e as int]);
        }
        e += 1;
    }
    proof {
        assert(visible@.take(e as int) =~= visible@);
    }
    stream
}

/// The groups of a frame: the elements of the visible entities, those that
/// follow each other with the same material and mesh in one group.
pub fn frame_groups(visible: &[Renderable]) -> (groups: Vec<InstanceGroup>)
    ensures
        group_views(groups@) == grouped(visible_stream(visible@)),
{
    group_instances(frame_stream(visible))
}

/// The groups of a frame of a pass without materials: the mesh elements
/// of the visible entities, those that follow each other with the same
/// mesh in one group.
pub fn frame_mesh_groups(visible: &[Renderable]) -> (groups: Vec<InstanceGroup>)
    ensures
        group_views(groups@) == grouped(visible_mesh_stream(visible@)),
{
    group_instances(frame_mesh_stream(visible))
}

/// The identity under which a material is bound, and whether the binding changed this frame.
#[derive(Clone, Copy, Debug, PartialEq, Eq, Structural)]
pub struct MaterialBinding {
    pub id: u32,
    pub changed: bool,
}

/// A group of a frame with what the storage of meshes and the binding of
/// materials say about it.
#[derive(Debug)]
pub struct FrameGroup {
    pub mesh: u32,
    /// Whether the mesh is loaded.
    pub mesh_loaded: bool,
    /// The binding of the material; `None` where the material cannot be bound.
    pub binding: Option<MaterialBinding>,
    pub instances: Vec<u32>,
}

/// What a `FrameGroup` is.
pub struct FrameGroupSpec {
    pub mesh: u32,
    pub mesh_loaded: bool,
    pub binding: Option<MaterialBinding>,
    pub instances: Seq<u32>,
}

impl View for FrameGroup {
    type V = FrameGroupSpec;

    open spec fn view(&self) -> FrameGroupSpec {
        FrameGroupSpec {
            mesh: self.mesh,
            mesh_loaded: self.mesh_loaded,
            binding: self.binding,
            instances: self.instances@,
        }
    }
}

/// The groups of a list, as specifications see them.
pub open spec fn frame_views(groups: Seq<FrameGroup>) -> Seq<FrameGroupSpec> {
    groups.map_values(|g: FrameGroup| g@)
}

/// A group goes into the batch: its mesh is loaded and, in a pass with
/// materials, its material is bound.
pub open spec fn admitted(group: FrameGroupSpec, with_materials: bool) -> bool {
    group.mesh_loaded && (!with_materials || group.binding is Some)
}

/// The material under which a group goes into the batch: the identity of
/// its binding, or 0 in a pass without materials.
pub open spec fn batch_material(group: FrameGroupSpec, with_materials: bool) -> u32 {
    if with_materials && group.binding is Some {
        group.binding->Some_0.id
    } else {
        0
    }
}

/// The batch after the groups of a frame went into it in order: each
/// admitted group is inserted, unless the batch would then hold more
/// instances or leaves than a `u32` can count.
pub open spec fn filled(
    runs: Seq<(u32, Seq<(u32, Seq<u32>)>)>,
    groups: Seq<FrameGroupSpec>,
    with_materials: bool,
) -> Seq<(u32, Seq<(u32, Seq<u32>)>)>
    decreases groups.len(),
{
    if groups.len() == 0 {
        runs
    } else {
        let before = filled(runs, groups.drop_last(), with_materials);
        let group = groups.last();
        if admitted(group, with_materials) && runs_admit(before, group.instances.len()) {
            insert_runs(before, batch_material(group, with_materials), group.mesh, group.instances)
        } else {
            before
        }
    }
}

/// The binding of the material of some admitted group changed this frame.
pub open spec fn any_rebound(groups: Seq<FrameGroupSpec>, with_materials: bool) -> bool {
    with_materials && exists|i: int|
        0 <= i < groups.len() && admitted(#[trigger] groups[i], true)
            && groups[i].binding->Some_0.changed
}

fn copy_instances(instances: &Vec<u32>) -> (copy: Vec<u32>)
    ensures
        copy@ == instances@,
{
    let mut copy: Vec<u32> = Vec::new();
    let mut i: usize = 0;
    while i < instances.len()
        invariant
            i <= instances@.len(),
            copy@ == instances@.take(i as int),
        decreases instances@.len() - i,
    {
        copy.push(instances[i]);
        assert(copy@ =~= instances@.take(i + 1));
        i += 1;
    }
    assert(instances@.take(i as int) =~= instances@);
    copy
}

/// Puts the groups of a frame into the batch, in order. Returns whether
/// the binding of a material changed.
pub fn fill(batch: &mut OrderedBatch, groups: &[FrameGroup], with_materials: bool) -> (rebound:
    bool)
    requires
        old(batch).well_formed(),
    ensures
        final(batch)@ == filled(old(batch)@, frame_views(groups@), with_materials),
        final(batch).previous_keys() == old(batch).previous_keys(),
        final(batch).well_formed(),
        rebound == any_rebound(frame_views(groups@), with_materials),
{
    let ghost views = frame_views(groups@);
    let mut rebound = false;
    let mut i: usize = 0;
    while i < groups.len()
        invariant
            views == frame_views(groups@),
            i <= groups@.len(),
            batch@ == filled(old(batch)@, views.take(i as int), with_materials),
            batch.previous_keys() == old(batch).previous_keys(),
            batch.well_formed(),
            rebound == any_rebound(views.take(i as int), with_materials),
        decreases groups@.len() - i,
    {
        let group = &groups[i];
        proof {
            assert(views.take(i + 1).drop_last() =~= views.take(i as int));
            assert(views.take(i + 1).last() == group@);
            assert(views[i as int] == group@);
        }
        let ghost seen = views.take(i as int);
        let ghost next = views.take(i + 1);
        if group.mesh_loaded {
            match group.binding {
                Some(binding) => {
                    if with_materials {
                        if binding.changed {
                            rebound = true;
                            assert(admitted(next[i as int], true));
                        }
                        batch.try_insert(binding.id, group.mesh, copy_instances(&group.instances));
                    } else {
                        batch.try_insert(0, group.mesh, copy_instances(&group.instances));
                    }
                },
                None => {
                    if !with_materials {
                        batch.try_insert(0, group.mesh, copy_instances(&group.instances));
                    }
                },
            }
        }
        proof {
            if any_rebound(next, with_materials) && !rebound {
                let w = choose|w: int|
                    0 <= w < next.len() && admitted(#[trigger] next[w], true)
                        && next[w].binding->Some_0.changed;
                if w < i {
                    assert(seen[w] == next[w]);
                }
            }
            if any_rebound(seen, with_materials) {
                let w = choose|w: int|
                    0 <= w < seen.len() && admitted(#[trigger] seen[w], true)
                        && seen[w].binding->Some_0.changed;
                assert(next[w] == seen[w]);
            }
        }
        i += 1;
    }
    proof {
        assert(views.take(i as int) =~= views);
    }
    rebound
}

/// Where a pass is in the cycle of its frames.
#[derive(Clone, Copy, Debug, PartialEq, Eq, Structural)]
pub enum PassState {
    /// No frame was prepared yet.
    Uninitialized,
    /// The frame of this index is prepared and not drawn.
    Prepared(usize),
    /// The frame of this index is drawn.
    Drawn(usize),
    /// The pass has given up its pipeline. It prepares and draws nothing more.
    Disposed,
}

/// What a prepared frame hands to the device.
#[derive(Debug)]
pub struct Prepared {
    /// Whether the draw commands have to be recorded anew.
    pub result: PrepareResult,
    /// The instances of the frame in drawing order: the content of the
    /// instance buffer, which has one element for each of them.
    pub instances: Vec<u32>,
}

/// How vertex data is stepped through.
#[derive(Clone, Copy, Debug, PartialEq, Eq, Structural)]
pub enum VertexInputRate {
    /// Advance the buffer after every vertex.
    Vertex,
    /// Advance the buffer after this number of instances.
    Instance(u32),
}

/// One vertex buffer of a pipeline: its format and how it is stepped through.
#[derive(Debug)]
pub struct VertexInput {
    pub format: VertexFormat,
    pub rate: VertexInputRate,
}

/// What the pipeline of a pass is made with.
#[derive(Debug)]
pub struct PipelineSettings {
    /// The vertex buffers: those of the mesh, then the one of the instances.
    pub vertex_desc: Vec<VertexInput>,
    /// Whether back faces are culled.
    pub cull_back_faces: bool,
    /// Whether the pass writes depth.
    pub depth_write: bool,
    /// Whether colors are blended as premultiplied alpha.
    pub blend_premultiplied_alpha: bool,
}

/// The vertex buffers of a pipeline: the formats of the pass per vertex,
/// then the arguments of the instances, one for each instance.
pub open spec fn pipeline_inputs(formats: Seq<FormatSpec>) -> Seq<(FormatSpec, VertexInputRate)> {
    formats.map_values(|f: FormatSpec| (f, VertexInputRate::Vertex)).push(
        (instance_format_spec(), VertexInputRate::Instance(1)),
    )
}

/// The vertex buffers of a list, as specifications see them.
pub open spec fn input_views(inputs: Seq<VertexInput>) -> Seq<(FormatSpec, VertexInputRate)> {
    inputs.map_values(|i: VertexInput| (i.format@, i.rate))
}

/// The settings of the pipeline of a pass: a transparent pass blends and
/// writes no depth, an opaque pass writes depth and does not blend.
pub fn pipeline_settings(vertex_format_base: &[VertexFormat], transparent: bool) -> (settings:
    PipelineSettings)
    ensures
        input_views(settings.vertex_desc@) == pipeline_inputs(format_views(vertex_format_base@)),
        settings.cull_back_faces,
        settings.depth_write == !transparent,
        settings.blend_premultiplied_alpha == transparent,
{
    let mut vertex_desc: Vec<VertexInput> = Vec::new();
    let mut i: usize = 0;
    while i < vertex_format_base.len()
        invariant
            i <= vertex_format_base@.len(),
            vertex_desc@.len() == i,
            forall|j: int|
                0 <= j < i ==> (#[trigger] vertex_desc@[j]).format@ == vertex_format_base@[j]@
                    && vertex_desc@[j].rate == VertexInputRate::Vertex,
        decreases vertex_format_base@.len() - i,
    {
        vertex_desc.push(
            VertexInput { format: vertex_format_base[i].clone(), rate: VertexInputRate::Vertex },
        );
        i += 1;
    }
    vertex_desc.push(VertexInput { format: instance_format(), rate: VertexInputRate::Instance(1) });
    proof {
        assert(input_views(vertex_desc@) =~= pipeline_inputs(format_views(vertex_format_base@)));
    }
    PipelineSettings {
        vertex_desc,
        cull_back_faces: true,
        depth_write: !transparent,
        blend_premultiplied_alpha: transparent,
    }
}

/// `<[T]>::sort_by` with `format_order`: the formats are the same as
/// before, each as often, and in canonical order.
#[verifier::external_body]
fn sort_formats(formats: &mut Vec<VertexFormat>)
    ensures
        format_views(final(formats)@).to_multiset() == format_views(old(formats)@).to_multiset(),
        formats_sorted(format_views(final(formats)@)),
{
    formats.sort_by(|a, b| format_order(a, b))
}

/// What happened to one mesh of a frame when the frame was drawn.
#[derive(Debug)]
pub enum DrawOutcome {
    /// The storage holds no mesh under the identity: nothing is drawn.
    Missing,
    /// The mesh lacks a vertex format that the pass needs: nothing is
    /// drawn, and the error is there to be logged.
    Skipped(Incompatible),
    /// The mesh is bound and drawn.
    Drawn(DrawCall),
}

/// One mesh of a frame with the range of its instances and what was drawn of it.
#[derive(Debug)]
pub struct LeafDraw {
    pub range: MeshRange,
    pub outcome: DrawOutcome,
}

/// One material of a frame with its meshes, in drawing order.
#[derive(Debug)]
pub struct MaterialDraw {
    pub material: u32,
    /// Whether the descriptor of the material is to be bound before the draws.
    pub bind_material: bool,
    pub draws: Vec<LeafDraw>,
}

/// Whether material group `i` is loaded; a group that the list does not reach is not.
pub open spec fn loaded_at(loaded: Seq<bool>, i: int) -> bool {
    0 <= i < loaded.len() && loaded[i]
}

/// The mesh of leaf `j` of material group `i`; `None` where the lists do not reach it.
pub open spec fn mesh_at<B>(meshes: Seq<Vec<Option<&BackendMesh<B>>>>, i: int, j: int) -> Option<
    &BackendMesh<B>,
> {
    if 0 <= i < meshes.len() && 0 <= j < meshes[i]@.len() {
        meshes[i]@[j]
    } else {
        None
    }
}

/// `draw` is what drawing the mesh of `range` comes to: nothing without
/// the mesh, the error where the mesh lacks a format, else the draw of all
/// its vertices for the instances of the range.
pub open spec fn leaf_drawn<B>(
    draw: LeafDraw,
    range: MeshRange,
    mesh: Option<&BackendMesh<B>>,
    formats: Seq<FormatSpec>,
) -> bool {
    &&& draw.range == range
    &&& match mesh {
        None => draw.outcome is Missing,
        Some(mesh) => match draw.outcome {
            DrawOutcome::Missing => false,
            DrawOutcome::Skipped(e) => e.reports(mesh.layouts(), formats),
            DrawOutcome::Drawn(call) => call.draws(mesh, 0, formats, range.start..range.end),
        },
    }
}

/// `draw` is what drawing material group `group` comes to: its meshes
/// are drawn in order where the group is drawn at all.
pub open spec fn material_drawn<B>(
    draw: MaterialDraw,
    group: MaterialGroup,
    drawn: bool,
    bind_material: bool,
    meshes: Seq<Vec<Option<&BackendMesh<B>>>>,
    i: int,
    formats: Seq<FormatSpec>,
) -> bool {
    &&& draw.material == group.material
    &&& draw.bind_material == bind_material
    &&& draw.draws@.len() == if drawn {
        group.meshes@.len()
    } else {
        0
    }
    &&& forall|j: int|
        0 <= j < draw.draws@.len() ==> leaf_drawn(
            #[trigger] draw.draws@[j],
            group.meshes@[j],
            mesh_at(meshes, i, j),
            formats,
        )
}

/// `draws` are what drawing the material groups comes to, in their order:
/// in a pass with materials only the loaded materials are bound and drawn.
pub open spec fn frame_drawn<B>(
    draws: Seq<MaterialDraw>,
    groups: Seq<MaterialGroup>,
    with_materials: bool,
    loaded: Seq<bool>,
    meshes: Seq<Vec<Option<&BackendMesh<B>>>>,
    formats: Seq<FormatSpec>,
) -> bool {
    &&& draws.len() == groups.len()
    &&& forall|i: int|
        0 <= i < groups.len() ==> material_drawn(
            #[trigger] draws[i],
            groups[i],
            !with_materials || loaded_at(loaded, i),
            with_materials && loaded_at(loaded, i),
            meshes,
            i,
            formats,
        )
}

/// Draws the material groups of a batch in order.
pub fn draw_groups<B>(
    groups: &[MaterialGroup],
    with_materials: bool,
    loaded: &[bool],
    meshes: &[Vec<Option<&BackendMesh<B>>>],
    formats: &[VertexFormat],
) -> (draws: Vec<MaterialDraw>)
    ensures
        frame_drawn(draws@, groups@, with_materials, loaded@, meshes@, format_views(formats@)),
{
    let mut draws: Vec<MaterialDraw> = Vec::new();
    let mut i: usize = 0;
    while i < groups.len()
        invariant
            i <= groups@.len(),
            draws@.len() == i,
            forall|k: int|
                0 <= k < i ==> material_drawn(
                    #[trigger] draws@[k],
                    groups@[k],
                    !with_materials || loaded_at(loaded@, k),
                    with_materials && loaded_at(loaded@, k),
                    meshes@,
                    k,
                    format_views(formats@),
                ),
        decreases groups@.len() - i,
    {
        let group = &groups[i];
        let is_loaded = i < loaded.len() && loaded[i];
        let drawn = !with_materials || is_loaded;
        let mut leaf_draws: Vec<LeafDraw> = Vec::new();
        if drawn {
            let mut j: usize = 0;
            while j < group.meshes.len()
                invariant
                    0 <= i < groups@.len(),
                    *group == groups@[i as int],
                    j <= group.meshes@.len(),
                    leaf_draws@.len() == j,
                    forall|k: int|
                        0 <= k < j ==> leaf_drawn(
                            #[trigger] leaf_draws@[k],
                            group.meshes@[k],
                            mesh_at(meshes@, i as int, k),
                            format_views(formats@),
                        ),
                decreases group.meshes@.len() - j,
            {
                let range = group.meshes[j];
                let mesh: Option<&BackendMesh<B>> = if i < meshes.len() && j < meshes[i].len() {
                    meshes[i][j]
                } else {
                    None
                };
                let outcome = match mesh {
                    None => DrawOutcome::Missing,
                    Some(mesh) => match mesh.bind_and_draw(0, formats, range.start..range.end) {
                        Ok(call) => DrawOutcome::Drawn(call),
                        Err(e) => DrawOutcome::Skipped(e),
                    },
                };
                leaf_draws.push(LeafDraw { range, outcome });
                j += 1;
            }
        }
        draws.push(
            MaterialDraw {
                material: group.material,
                bind_material: with_materials && is_loaded,
                draws: leaf_draws,
            },
        );
        i += 1;
    }
    draws
}

/// A pass that draws the meshes of the visible entities by instances: it
/// holds the batch of the frame, the formats that it needs of every mesh in
/// canonical order, and where it is in the cycle of its frames.
pub struct BaseDraw {
    static_batches: OrderedBatch,
    vertex_format_base: Vec<VertexFormat>,
    change: ChangeDetection,
    state: PassState,
    with_materials: bool,
}

impl BaseDraw {
    /// The batch of the pass.
    pub closed spec fn batch(&self) -> OrderedBatch {
        self.static_batches
    }

    /// The vertex formats that the pass needs of every mesh.
    pub closed spec fn formats(&self) -> Seq<FormatSpec> {
        format_views(self.vertex_format_base@)
    }

    /// The change detection of the pass.
    pub closed spec fn change(&self) -> ChangeDetection {
        self.change
    }

    /// Where the pass is in its cycle.
    pub closed spec fn state(&self) -> PassState {
        self.state
    }

    /// Whether the pass binds materials: the opaque pass does, the transparent pass does not.
    pub closed spec fn with_materials(&self) -> bool {
        self.with_materials
    }

    /// The formats are in canonical order and the batch is well formed.
    pub open spec fn well_formed(&self) -> bool {
        &&& formats_sorted(self.formats())
        &&& self.batch().well_formed()
    }

    /// A pass that needs the given formats. It has prepared no frame.
    pub fn new(base_format: Vec<VertexFormat>, with_materials: bool) -> (pass: BaseDraw)
        ensures
            pass.well_formed(),
            pass.formats().to_multiset() == format_views(base_format@).to_multiset(),
            pass.batch()@.len() == 0,
            pass.change() == ChangeDetection::Stable,
            pass.state() == PassState::Uninitialized,
            pass.with_materials() == with_materials,
    {
        let mut vertex_format_base = base_format;
        sort_formats(&mut vertex_format_base);
        BaseDraw {
            static_batches: OrderedBatch::new(),
            vertex_format_base,
            change: ChangeDetection::Stable,
            state: PassState::Uninitialized,
            with_materials,
        }
    }

    /// The vertex formats that the pass needs of every mesh, in canonical order.
    pub fn vertex_format_base(&self) -> (formats: &Vec<VertexFormat>)
        ensures
            format_views(formats@) == self.formats(),
    {
        &self.vertex_format_base
    }

    /// Where the pass is in its cycle.
    pub fn pass_state(&self) -> (state: PassState)
        ensures
            state == self.state(),
    {
        self.state
    }

    /// The change detection of the pass.
    pub fn change_detection(&self) -> (change: ChangeDetection)
        ensures
            change == self.change(),
    {
        self.change
    }

    /// Whether the pass binds materials.
    pub fn binds_materials(&self) -> (with_materials: bool)
        ensures
            with_materials == self.with_materials(),
    {
        self.with_materials
    }

    /// Number of instances in the batch of the pass.
    pub fn instance_count(&self) -> (count: usize)
        ensures
            count == run_total(self.batch()@),
    {
        self.static_batches.count()
    }

    /// The binding of the instance buffer: the one behind the bindings of
    /// the formats that the pass needs of every mesh.
    pub fn instance_slot(&self) -> (slot: usize)
        ensures
            slot == self.formats().len(),
    {
        self.vertex_format_base.len()
    }

    /// The material groups of the prepared frame, in drawing order.
    pub fn groups(&self) -> (groups: Vec<MaterialGroup>)
        requires
            self.well_formed(),
        ensures
            groups_match(groups@, self.batch()@),
    {
        self.static_batches.groups()
    }

    /// Prepares the frame of the given index: clears the batch and puts the
    /// groups of the frame into it. The draw commands have to be recorded
    /// anew where a material was bound anew or the keys of the batch
    /// differ from those of the frame before. A disposed pass prepares nothing.
    pub fn prepare(&mut self, index: usize, groups: &[FrameGroup]) -> (prepared: Option<Prepared>)
        requires
            old(self).well_formed(),
        ensures
            final(self).well_formed(),
            final(self).formats() == old(self).formats(),
            final(self).with_materials() == old(self).with_materials(),
            prepared is None == (old(self).state() == PassState::Disposed),
            prepared is None ==> final(self).batch() == old(self).batch() && final(self).change()
                == old(self).change() && final(self).state() == old(self).state(),
            prepared is Some ==> final(self).state() == PassState::Prepared(index),
            prepared is Some ==> final(self).batch()@ == filled(
                Seq::empty(),
                frame_views(groups@),
                old(self).with_materials(),
            ),
            prepared is Some ==> prepared->Some_0.instances@ == run_data(final(self).batch()@),
            prepared is Some ==> (final(self).change(), prepared->Some_0.result) == prepare_outcome(
                old(self).change(),
                index,
                any_rebound(frame_views(groups@), old(self).with_materials()) || run_keys(
                    final(self).batch()@,
                ) != run_keys(old(self).batch()@),
            ),
    {
        if self.state == PassState::Disposed {
            return None;
        }
        self.static_batches.begin_frame();
        assert(self.static_batches@ =~= Seq::empty());
        let rebound = fill(&mut self.static_batches, groups, self.with_materials);
        let changed = rebound || self.static_batches.changed();
        let (change, result) = change_prepare_result(self.change, index, changed);
        self.change = change;
        self.state = PassState::Prepared(index);
        Some(Prepared { result, instances: self.static_batches.data() })
    }

    /// Draws the frame of the given index, if that frame is prepared and
    /// the instance buffer is bound: each material group in order, bound
    /// and drawn where its material is loaded, each of its meshes with the
    /// range of its instances. A mesh that is not in the storage or lacks
    /// a format that the pass needs is not drawn.
    pub fn draw_inline<B>(
        &mut self,
        index: usize,
        models_bound: bool,
        loaded: &[bool],
        meshes: &[Vec<Option<&BackendMesh<B>>>],
    ) -> (draws: Vec<MaterialDraw>)
        requires
            old(self).well_formed(),
        ensures
            final(self).well_formed(),
            final(self).formats() == old(self).formats(),
            final(self).with_materials() == old(self).with_materials(),
            final(self).batch() == old(self).batch(),
            final(self).change() == old(self).change(),
            final(self).state() == if old(self).state() == PassState::Prepared(index) {
                PassState::Drawn(index)
            } else {
                old(self).state()
            },
            !(old(self).state() == PassState::Prepared(index) && models_bound) ==> draws@.len()
                == 0,
            old(self).state() == PassState::Prepared(index) && models_bound ==> exists|
                groups: Seq<MaterialGroup>,
            |
                groups_match(groups, old(self).batch()@) && frame_drawn(
                    draws@,
                    groups,
                    old(self).with_materials(),
                    loaded@,
                    meshes@,
                    old(self).formats(),
                ),
    {
        if self.state != PassState::Prepared(index) {
            return Vec::new();
        }
        self.state = PassState::Drawn(index);
        if !models_bound {
            return Vec::new();
        }
        let groups = self.static_batches.groups();
        draw_groups(
            groups.as_slice(),
            self.with_materials,
            loaded,
            meshes,
            self.vertex_format_base.as_slice(),
        )
    }

    /// Gives up the pipeline of the pass. Returns whether the pipeline and
    /// its layout are to be destroyed: they are the first time only.
    pub fn dispose(&mut self) -> (release: bool)
        ensures
            release == (old(self).state() != PassState::Disposed),
            final(self).state() == PassState::Disposed,
            final(self).batch() == old(self).batch(),
            final(self).formats() == old(self).formats(),
            final(self).change() == old(self).change(),
            final(self).with_materials() == old(self).with_materials(),
    {
        let release = self.state != PassState::Disposed;
        self.state = PassState::Disposed;
        release
    }
}

/// The transparent pass: a pass that binds no materials and draws every
/// mesh under material 0, in the order of visibility.
pub type BaseDrawTransparent = BaseDraw;

/// Describes the opaque pass of a pass definition.
#[derive(Debug)]
pub struct BaseDrawDesc {}

/// A pass with the settings of its pipeline.
pub struct PassSetup {
    pub pass: BaseDraw,
    pub pipeline: PipelineSettings,
}

impl PassSetup {
    /// The setup is that of a pass that needs the formats `base`.
    pub open spec fn sets_up(&self, base: Seq<FormatSpec>, transparent: bool) -> bool {
        &&& input_views(self.pipeline.vertex_desc@) == pipeline_inputs(base)
        &&& self.pipeline.cull_back_faces
        &&& self.pipeline.depth_write == !transparent
        &&& self.pipeline.blend_premultiplied_alpha == transparent
        &&& self.pass.well_formed()
        &&& self.pass.formats().to_multiset() == base.to_multiset()
        &&& self.pass.batch()@.len() == 0
        &&& self.pass.change() == ChangeDetection::Stable
        &&& self.pass.state() == PassState::Uninitialized
        &&& self.pass.with_materials() == !transparent
    }
}

fn set_up(base_format: Vec<VertexFormat>, transparent: bool) -> (setup: PassSetup)
    ensures
        setup.sets_up(format_views(base_format@), transparent),
{
    let pipeline = pipeline_settings(base_format.as_slice(), transparent);
    PassSetup { pass: BaseDraw::new(base_format, !transparent), pipeline }
}

impl BaseDrawDesc {
    /// Create pass in default configuration.
    pub fn new() -> BaseDrawDesc {
        BaseDrawDesc {}
    }

    /// The opaque pass of the definition `T` with the settings of its
    /// pipeline: the pipeline takes the formats as the definition gives
    /// them, the pass keeps them in canonical order.
    pub fn build<T: IRenderPassDef>(self) -> (setup: PassSetup)
        ensures
            exists|base: Vec<VertexFormat>|
                call_ensures(T::base_format, (), base) && setup.sets_up(
                    format_views(base@),
                    false,
                ),
    {
        set_up(T::base_format(), false)
    }
}

/// Describes the transparent pass of a pass definition.
#[derive(Debug)]
pub struct BaseDrawTransparentDesc {}

impl BaseDrawTransparentDesc {
    /// Create pass in default configuration.
    pub fn new() -> BaseDrawTransparentDesc {
        BaseDrawTransparentDesc {}
    }

    /// The transparent pass of the definition `T` with the settings of
    /// its pipeline. It binds no materials: every mesh goes under material 0.
    pub fn build<T: IRenderPassDef>(self) -> (setup: PassSetup)
        ensures
            exists|base: Vec<VertexFormat>|
                call_ensures(T::base_format, (), base) && setup.sets_up(
                    format_views(base@),
                    true,
                ),
    {
        set_up(T::base_format(), true)
    }
}

} // verus!
