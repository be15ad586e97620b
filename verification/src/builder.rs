//! Mesh builder: collects attribute buffers and indices and lays them out
//! for upload into one vertex buffer.
use crate::resolve::{layout_formats, layout_views, LayoutSpec, VertexBufferLayout};
use crate::vertex::{format_order, formats_sorted, FormatSpec, VertexFormat};
use std::cmp::Ordering;
use vstd::prelude::*;

verus! {

/// How the vertices of a mesh are assembled into primitives.
#[derive(Clone, Copy, Debug, PartialEq, Eq, Structural)]
pub enum Primitive {
    PointList,
    LineList,
    LineStrip,
    TriangleList,
    TriangleStrip,
    LineListAdjacency,
    LineStripAdjacency,
    TriangleListAdjacency,
    TriangleStripAdjacency,
    /// Patch list with the number of control points of a patch.
    PatchList(u8),
}

/// Width of one index of an index buffer.
#[derive(Clone, Copy, Debug, PartialEq, Eq, Structural)]
pub enum IndexType {
    U16,
    U32,
}

/// Number of bytes that one index of the given type takes.
pub open spec fn index_width(index_type: IndexType) -> int {
    match index_type {
        IndexType::U16 => 2,
        IndexType::U32 => 4,
    }
}

/// Number of bytes that one index of the given type takes.
pub fn index_stride(index_type: IndexType) -> (stride: usize)
    ensures
        stride == index_width(index_type),
{
    match index_type {
        IndexType::U16 => 2,
        IndexType::U32 => 4,
    }
}

/// Indices handed to a mesh builder.
#[derive(Debug)]
pub enum Indices {
    /// `u32` per index.
    U32(Vec<u32>),
}

impl From<Vec<u32>> for Indices {
    fn from(vec: Vec<u32>) -> (indices: Indices) {
        Indices::U32(vec)
    }
}

impl vstd::std_specs::convert::FromSpecImpl<Vec<u32>> for Indices {
    open spec fn obeys_from_spec() -> bool {
        true
    }

    open spec fn from_spec(vec: Vec<u32>) -> Indices {
        Indices::U32(vec)
    }
}

/// The bytes of one attribute buffer with the format of its vertices.
#[derive(Debug)]
pub struct RawVertices {
    pub vertices: Vec<u8>,
    pub format: VertexFormat,
}

/// What an attribute buffer is.
#[verifier::ext_equal]
pub struct BufferSpec {
    pub bytes: Seq<u8>,
    pub format: FormatSpec,
}

impl View for RawVertices {
    type V = BufferSpec;

    open spec fn view(&self) -> BufferSpec {
        BufferSpec { bytes: self.vertices@, format: self.format@ }
    }
}

/// The bytes of an index buffer with the width of its indices.
#[derive(Debug)]
pub struct RawIndices {
    pub indices: Vec<u8>,
    pub index_type: IndexType,
}

/// What an index buffer is.
#[verifier::ext_equal]
pub struct IndexSpec {
    pub bytes: Seq<u8>,
    pub index_type: IndexType,
}

impl View for RawIndices {
    type V = IndexSpec;

    open spec fn view(&self) -> IndexSpec {
        IndexSpec { bytes: self.indices@, index_type: self.index_type }
    }
}

/// The attribute buffers of a builder in a `smallvec::SmallVec`, in the
/// order in which they were added.
#[verifier::external_body]
pub struct VertexBuffers {
    inner: smallvec::SmallVec<[RawVertices; 16]>,
}

/// The attribute buffers that a `VertexBuffers` holds, in the order in which they were pushed.
pub uninterp spec fn buffers_of(list: VertexBuffers) -> Seq<RawVertices>;

/// `smallvec::SmallVec::new`: the new list holds nothing.
#[verifier::external_body]
fn buffers_new() -> (list: VertexBuffers)
    ensures
        buffers_of(list).len() == 0,
{
    VertexBuffers { inner: smallvec::SmallVec::new() }
}

/// `smallvec::SmallVec::push`: the buffer is appended behind those already held.
#[verifier::external_body]
fn buffers_push(list: &mut VertexBuffers, buffer: RawVertices)
    ensures
        buffers_of(*final(list)) == buffers_of(*old(list)).push(buffer),
{
    list.inner.push(buffer)
}

/// `smallvec::SmallVec::len`: the number of buffers held.
#[verifier::external_body]
fn buffers_len(list: &VertexBuffers) -> (len: usize)
    ensures
        len == buffers_of(*list).len(),
{
    list.inner.len()
}

/// Indexing a `smallvec::SmallVec`: the buffer at position `i`.
#[verifier::external_body]
fn buffers_get(list: &VertexBuffers, i: usize) -> (buffer: &RawVertices)
    requires
        i < buffers_of(*list).len(),
    ensures
        *buffer == buffers_of(*list)[i as int],
{
    &list.inner[i]
}

/// The four bytes of index `i` in `bytes`.
pub open spec fn index_at(bytes: Seq<u8>, i: int) -> Seq<u8> {
    bytes.subrange(4 * i, 4 * i + 4)
}

/// `bytes` are the indices as they lie in the memory of a machine: four
/// bytes for each index, the low byte first in all of them or the high
/// byte first in all of them.
pub open spec fn holds_indices(bytes: Seq<u8>, indices: Seq<u32>) -> bool {
    &&& bytes.len() == 4 * indices.len()
    &&& {
        ||| forall|i: int|
            0 <= i < indices.len() ==> index_at(bytes, i) == vstd::bytes::spec_u32_to_le_bytes(
                #[trigger] indices[i],
            )
        ||| forall|i: int|
            0 <= i < indices.len() ==> index_at(bytes, i) == vstd::bytes::spec_u32_to_le_bytes(
                #[trigger] indices[i],
            ).reverse()
    }
}

/// `rendy::util::cast_cow` on borrowed indices: the bytes of the indices as
/// they lie in memory, in the byte order of the machine.
#[verifier::external_body]
fn index_bytes(indices: &Vec<u32>) -> (bytes: Vec<u8>)
    ensures
        holds_indices(bytes@, indices@),
{
    amethyst_rendy::rendy::util::cast_cow(std::borrow::Cow::Borrowed(indices.as_slice())).into_owned()
}

/// What a mesh builder holds.
#[verifier::ext_equal]
pub struct BuilderSpec {
    pub buffers: Seq<BufferSpec>,
    pub indices: Option<IndexSpec>,
    pub prim: Primitive,
}

/// Number of whole vertices in an attribute buffer.
pub open spec fn element_count(buffer: BufferSpec) -> int {
    (buffer.bytes.len() as int) / (buffer.format.stride as int)
}

/// The smallest element count among the buffers; 0 where there is no buffer.
pub open spec fn vertex_count(buffers: Seq<BufferSpec>) -> int
    decreases buffers.len(),
{
    if buffers.len() == 0 {
        0
    } else if buffers.len() == 1 {
        element_count(buffers[0])
    } else {
        let rest = vertex_count(buffers.drop_last());
        let last = element_count(buffers.last());
        if last < rest {
            last
        } else {
            rest
        }
    }
}

/// The vertex count is the element count of one of the buffers, and no
/// buffer has fewer elements.
pub proof fn lemma_vertex_count_is_min(buffers: Seq<BufferSpec>)
    requires
        buffers.len() > 0,
    ensures
        forall|i: int|
            0 <= i < buffers.len() ==> vertex_count(buffers) <= element_count(#[trigger] buffers[i]),
        exists|i: int|
            0 <= i < buffers.len() && vertex_count(buffers) == element_count(#[trigger] buffers[i]),
    decreases buffers.len(),
{
    if buffers.len() == 1 {
        assert(vertex_count(buffers) == element_count(buffers[0]));
    } else {
        let rest = buffers.drop_last();
        lemma_vertex_count_is_min(rest);
        assert forall|i: int| 0 <= i < buffers.len() implies vertex_count(buffers)
            <= element_count(#[trigger] buffers[i]) by {
            if i < rest.len() {
                assert(rest[i] == buffers[i]);
            }
        }
        let w = choose|i: int|
            0 <= i < rest.len() && vertex_count(rest) == element_count(#[trigger] rest[i]);
        assert(rest[w] == buffers[w]);
        if element_count(buffers.last()) < vertex_count(rest) {
            assert(vertex_count(buffers) == element_count(buffers[buffers.len() - 1]));
        } else {
            assert(vertex_count(buffers) == element_count(buffers[w]));
        }
    }
}

/// Number of bytes that `count` vertices of every buffer take together.
pub open spec fn packed_size(buffers: Seq<BufferSpec>, count: int) -> int
    decreases buffers.len(),
{
    if buffers.len() == 0 {
        0
    } else {
        packed_size(buffers.drop_last(), count) + buffers.last().format.stride * count
    }
}

/// The first `count` vertices of every buffer, one buffer after the other.
pub open spec fn packed(buffers: Seq<BufferSpec>, count: int) -> Seq<u8>
    decreases buffers.len(),
{
    if buffers.len() == 0 {
        Seq::empty()
    } else {
        packed(buffers.drop_last(), count) + buffers.last().bytes.take(
            buffers.last().format.stride * count,
        )
    }
}

/// The layout of each buffer in the packed data, in the order of the buffers.
pub open spec fn packed_layouts(buffers: Seq<BufferSpec>, count: int) -> Seq<LayoutSpec> {
    Seq::new(
        buffers.len(),
        |i: int|
            LayoutSpec {
                offset: packed_size(buffers.take(i), count) as u64,
                format: buffers[i].format,
            },
    )
}

/// `value` rounded up to the next multiple of `align`.
pub open spec fn aligned(align: int, value: int) -> int {
    ((value + align - 1) / align) * align
}

/// The aligned value is the least multiple of `align` that is not below `value`.
pub proof fn lemma_aligned(align: int, value: int)
    requires
        align > 0,
        value >= 0,
    ensures
        value <= aligned(align, value) < value + align,
        aligned(align, value) % align == 0,
{
    let q = (value + align - 1) / align;
    assert(q * align <= value + align - 1 < q * align + align) by (nonlinear_arith)
        requires
            q == (value + align - 1) / align,
            align > 0,
    ;
    assert((q * align) % align == 0) by (nonlinear_arith)
        requires
            align > 0,
    ;
}

/// Rounds `value` up to the next multiple of `align`.
pub fn align_by(align: usize, value: usize) -> (r: usize)
    requires
        align > 0,
        value + align - 1 <= usize::MAX,
    ensures
        r == aligned(align as int, value as int),
{
    let q = (value + (align - 1)) / align;
    assert(q * align <= value + align - 1) by (nonlinear_arith)
        requires
            q == (value + align - 1) / (align as int),
            align > 0,
    ;
    q * align
}

/// Number of indices in an index buffer.
pub open spec fn index_count(indices: IndexSpec) -> int {
    (indices.bytes.len() as int) / index_width(indices.index_type)
}

/// Number of vertices that one draw of the mesh runs over: the number of
/// indices where the mesh has them, else the number of vertices.
pub open spec fn draw_len(builder: BuilderSpec) -> int {
    match builder.indices {
        Some(indices) => index_count(indices),
        None => vertex_count(builder.buffers),
    }
}

/// Why the data of a builder cannot be laid out.
#[derive(Clone, Copy, Debug, PartialEq, Eq, Structural)]
pub enum BuildError {
    /// The alignment of the device is zero.
    ZeroAlignment,
    /// An attribute buffer has a format of stride zero.
    ZeroStride,
    /// A count or a size does not fit the integer that holds it.
    TooLarge,
}

/// Some attribute buffer has a format of stride zero.
pub open spec fn has_zero_stride(buffers: Seq<BufferSpec>) -> bool {
    exists|i: int| 0 <= i < buffers.len() && (#[trigger] buffers[i]).format.stride == 0
}

/// The counts and sizes of the mesh fit the integers that hold them.
pub open spec fn fits(builder: BuilderSpec, align: int) -> bool {
    &&& vertex_count(builder.buffers) <= u32::MAX
    &&& packed_size(builder.buffers, vertex_count(builder.buffers)) + align - 1 <= usize::MAX
    &&& draw_len(builder) <= u32::MAX
}

/// The error with which laying out fails; `None` where it succeeds.
pub open spec fn build_error(builder: BuilderSpec, align: int) -> Option<BuildError> {
    if align <= 0 {
        Some(BuildError::ZeroAlignment)
    } else if has_zero_stride(builder.buffers) {
        Some(BuildError::ZeroStride)
    } else if !fits(builder, align) {
        Some(BuildError::TooLarge)
    } else {
        None
    }
}

/// The data of a mesh laid out for upload: what the vertex buffer has to
/// hold and where each attribute buffer lies in it.
#[derive(Debug)]
pub struct MeshUpload {
    /// Number of vertices of the mesh.
    pub vertex_count: u32,
    /// Size in bytes of the staging buffer: the size of the vertex data
    /// rounded up to the alignment of the device.
    pub staging_size: u64,
    /// Content of the vertex buffer; its length is the size of that buffer.
    pub vertex_data: Vec<u8>,
    /// Where the data of each attribute buffer lies, in canonical order of the formats.
    pub vertex_layouts: Vec<VertexBufferLayout>,
    /// Width of the indices, where the mesh has an index buffer.
    pub index_type: Option<IndexType>,
    /// Primitive type of the mesh.
    pub prim: Primitive,
    /// Number of vertices that a draw runs over.
    pub len: u32,
}

impl MeshUpload {
    /// The upload is the layout of `builder` for a device with alignment `align`.
    pub open spec fn lays_out(&self, builder: BuilderSpec, align: int) -> bool {
        &&& self.vertex_count == vertex_count(builder.buffers)
        &&& self.vertex_data@ == packed(builder.buffers, vertex_count(builder.buffers))
        &&& self.vertex_data@.len() == packed_size(
            builder.buffers,
            vertex_count(builder.buffers),
        )
        &&& self.staging_size == aligned(align, self.vertex_data@.len() as int)
        &&& layout_views(self.vertex_layouts@).to_multiset() == packed_layouts(
            builder.buffers,
            vertex_count(builder.buffers),
        ).to_multiset()
        &&& self.well_formed()
        &&& self.index_type == match builder.indices {
            Some(indices) => Some(indices.index_type),
            None => None,
        }
        &&& self.prim == builder.prim
        &&& self.len == draw_len(builder)
    }

    /// The layouts are in canonical order of their formats.
    pub open spec fn well_formed(&self) -> bool {
        formats_sorted(layout_formats(layout_views(self.vertex_layouts@)))
    }
}

/// How two layouts are ordered: by their formats, in canonical order.
pub fn layout_order(a: &VertexBufferLayout, b: &VertexBufferLayout) -> (o: Ordering)
    ensures
        o is Less <==> a.format@.before(b.format@),
        o is Equal <==> a.format@ == b.format@,
{
    format_order(&a.format, &b.format)
}

/// `<[T]>::sort_unstable_by` with `layout_order`: the layouts are the same
/// as before, each as often, and in canonical order of their formats.
#[verifier::external_body]
fn sort_layouts(layouts: &mut Vec<VertexBufferLayout>)
    ensures
        layout_views(final(layouts)@).to_multiset() == layout_views(old(layouts)@).to_multiset(),
        formats_sorted(layout_formats(layout_views(final(layouts)@))),
{
    layouts.sort_unstable_by(|a, b| layout_order(a, b))
}

/// Generics-free mesh builder.
pub struct MeshBuilder {
    vertices: VertexBuffers,
    indices: Option<RawIndices>,
    prim: Primitive,
}

/// The buffers of a list, as specifications see them.
pub open spec fn buffer_views(buffers: Seq<RawVertices>) -> Seq<BufferSpec> {
    buffers.map_values(|b: RawVertices| b@)
}

impl View for MeshBuilder {
    type V = BuilderSpec;

    closed spec fn view(&self) -> BuilderSpec {
        BuilderSpec {
            buffers: buffer_views(buffers_of(self.vertices)),
            indices: match self.indices {
                Some(indices) => Some(indices@),
                None => None,
            },
            prim: self.prim,
        }
    }
}

proof fn lemma_product_within(stride: int, count: int, len: int)
    requires
        stride > 0,
        0 <= count <= len / stride,
        len >= 0,
    ensures
        0 <= stride * count <= len,
{
    assert((len / stride) * stride <= len) by (nonlinear_arith)
        requires
            stride > 0,
            len >= 0,
    ;
    assert(stride * count <= (len / stride) * stride) by (nonlinear_arith)
        requires
            stride > 0,
            0 <= count <= len / stride,
    ;
    assert(0 <= stride * count) by (nonlinear_arith)
        requires
            stride > 0,
            0 <= count,
    ;
}

proof fn lemma_vertex_count_step(buffers: Seq<BufferSpec>, i: int)
    requires
        0 <= i < buffers.len(),
    ensures
        vertex_count(buffers.take(i + 1)) == if i == 0 {
            element_count(buffers[i])
        } else if element_count(buffers[i]) < vertex_count(buffers.take(i)) {
            element_count(buffers[i])
        } else {
            vertex_count(buffers.take(i))
        },
{
    let longer = buffers.take(i + 1);
    assert(longer.last() == buffers[i]);
    assert(longer.drop_last() =~= buffers.take(i));
    if i == 0 {
        assert(longer[0] == buffers[0]);
    }
}

proof fn lemma_packed_step(buffers: Seq<BufferSpec>, count: int, i: int)
    requires
        0 <= i < buffers.len(),
    ensures
        packed_size(buffers.take(i + 1), count) == packed_size(buffers.take(i), count)
            + buffers[i].format.stride * count,
        packed(buffers.take(i + 1), count) == packed(buffers.take(i), count)
            + buffers[i].bytes.take(buffers[i].format.stride * count),
{
    let longer = buffers.take(i + 1);
    assert(longer.last() == buffers[i]);
    assert(longer.drop_last() =~= buffers.take(i));
}

impl MeshBuilder {
    /// Create empty builder.
    pub fn new() -> (builder: MeshBuilder)
        ensures
            builder@ == (BuilderSpec {
                buffers: Seq::empty(),
                indices: None,
                prim: Primitive::TriangleList,
            }),
    {
        let builder = MeshBuilder {
            vertices: buffers_new(),
            indices: None,
            prim: Primitive::TriangleList,
        };
        assert(builder@.buffers =~= Seq::empty());
        builder
    }

    /// Convert builder into fully owned type. The builder owns all its
    /// buffers, so this is the builder itself.
    pub fn into_owned(self) -> (builder: MeshBuilder)
        ensures
            builder@ == self@,
    {
        self
    }

    /// Set indices buffer to the `MeshBuilder`.
    pub fn with_indices(self, indices: Indices) -> (builder: MeshBuilder)
        ensures
            builder@.buffers == self@.buffers,
            builder@.prim == self@.prim,
            builder@.indices is Some,
            builder@.indices->Some_0.index_type == IndexType::U32,
            holds_indices(builder@.indices->Some_0.bytes, indices->U32_0@),
    {
        let mut builder = self;
        builder.set_indices(indices);
        builder
    }

    /// Set indices buffer to the `MeshBuilder`, in place of the one it had.
    pub fn set_indices(&mut self, indices: Indices)
        ensures
            final(self)@.buffers == old(self)@.buffers,
            final(self)@.prim == old(self)@.prim,
            final(self)@.indices is Some,
            final(self)@.indices->Some_0.index_type == IndexType::U32,
            holds_indices(final(self)@.indices->Some_0.bytes, indices->U32_0@),
    {
        self.indices = match indices {
            Indices::U32(i) => Some(
                RawIndices { indices: index_bytes(&i), index_type: IndexType::U32 },
            ),
        };
    }

    /// Add another attribute buffer to the `MeshBuilder`.
    pub fn with_vertices(self, vertices: Vec<u8>, format: VertexFormat) -> (builder: MeshBuilder)
        ensures
            builder@ == (BuilderSpec {
                buffers: self@.buffers.push(BufferSpec { bytes: vertices@, format: format@ }),
                ..self@
            }),
    {
        let mut builder = self;
        builder.add_vertices(vertices, format);
        builder
    }

    /// Add another attribute buffer to the `MeshBuilder`, behind those it has.
    pub fn add_vertices(&mut self, vertices: Vec<u8>, format: VertexFormat)
        ensures
            final(self)@ == (BuilderSpec {
                buffers: old(self)@.buffers.push(BufferSpec { bytes: vertices@, format: format@ }),
                ..old(self)@
            }),
    {
        let ghost before = buffers_of(self.vertices);
        let buffer = RawVertices { vertices, format };
        buffers_push(&mut self.vertices, buffer);
        assert(buffer_views(before.push(buffer)) =~= buffer_views(before).push(buffer@));
    }

    /// Sets the primitive type of the mesh.
    ///
    /// By default, meshes are constructed as triangle lists.
    pub fn with_prim_type(self, prim: Primitive) -> (builder: MeshBuilder)
        ensures
            builder@ == (BuilderSpec { prim, ..self@ }),
    {
        let mut builder = self;
        builder.set_prim_type(prim);
        builder
    }

    /// Sets the primitive type of the mesh.
    ///
    /// By default, meshes are constructed as triangle lists.
    pub fn set_prim_type(&mut self, prim: Primitive)
        ensures
            final(self)@ == (BuilderSpec { prim, ..old(self)@ }),
    {
        self.prim = prim;
    }

    /// The index buffer of the builder, if one was set.
    pub fn indices(&self) -> (indices: Option<&RawIndices>)
        ensures
            indices is Some == self@.indices is Some,
            indices is Some ==> indices->Some_0@ == self@.indices->Some_0,
    {
        self.indices.as_ref()
    }

    /// Lays out the data of the mesh for a device that copies buffers in
    /// multiples of `align` bytes.
    ///
    /// A mesh expects all vertex buffers to have the same number of elements.
    /// If those are not equal, the length of the smallest vertex buffer is
    /// selected, effectively discarding extra data from larger buffers.
    ///
    /// Note that the contents of the index buffer are not validated.
    pub fn build(&self, align: usize) -> (r: Result<MeshUpload, BuildError>)
        ensures
            r is Ok <==> build_error(self@, align as int) is None,
            r is Ok ==> r->Ok_0.lays_out(self@, align as int),
            r is Err ==> Some(r->Err_0) == build_error(self@, align as int),
    {
        if align == 0 {
            return Err(BuildError::ZeroAlignment);
        }
        let ghost raw = buffers_of(self.vertices);
        let ghost buffers = self@.buffers;
        let n = buffers_len(&self.vertices);
        let mut count: usize = 0;
        let mut i: usize = 0;
        while i < n
            invariant
                raw == buffers_of(self.vertices),
                buffers == buffer_views(raw),
                n == raw.len(),
                i <= n,
                align > 0,
                count == vertex_count(buffers.take(i as int)),
                forall|j: int| 0 <= j < i ==> (#[trigger] buffers[j]).format.stride > 0,
            decreases n - i,
        {
            let buffer = buffers_get(&self.vertices, i);
            assert(buffer@ == buffers[i as int]);
            if buffer.format.stride == 0 {
                assert(has_zero_stride(buffers));
                return Err(BuildError::ZeroStride);
            }
            let elements = buffer.vertices.len() / (buffer.format.stride as usize);
            proof {
                lemma_vertex_count_step(buffers, i as int);
            }
            if i == 0 || elements < count {
                count = elements;
            }
            i += 1;
        }
        proof {
            assert(buffers.take(n as int) =~= buffers);
            if n > 0 {
                lemma_vertex_count_is_min(buffers);
            }
        }
        if count > u32::MAX as usize {
            return Err(BuildError::TooLarge);
        }
        let mut data: Vec<u8> = Vec::new();
        let mut vertex_layouts: Vec<VertexBufferLayout> = Vec::new();
        let mut i: usize = 0;
        while i < n
            invariant
                raw == buffers_of(self.vertices),
                buffers == buffer_views(raw),
                n == raw.len(),
                i <= n,
                count == vertex_count(buffers),
                forall|j: int| 0 <= j < n ==> (#[trigger] buffers[j]).format.stride > 0,
                forall|j: int| 0 <= j < n ==> count <= element_count(#[trigger] buffers[j]),
                data@ == packed(buffers.take(i as int), count as int),
                data@.len() == packed_size(buffers.take(i as int), count as int),
                layout_views(vertex_layouts@) =~= packed_layouts(buffers, count as int).take(
                    i as int,
                ),
            decreases n - i,
        {
            let buffer = buffers_get(&self.vertices, i);
            assert(buffer@ == buffers[i as int]);
            proof {
                lemma_product_within(
                    buffer.format.stride as int,
                    count as int,
                    buffer.vertices@.len() as int,
                );
                lemma_packed_step(buffers, count as int, i as int);
            }
            let available = buffer.vertices.len();
            assert(buffer.format.stride * count <= available);
            let size = (buffer.format.stride as usize) * count;
            let this_offset = data.len() as u64;
            let ghost before = data@;
            let ghost layouts_before = layout_views(vertex_layouts@);
            data.extend_from_slice(&buffer.vertices[0..size]);
            assert(data@ =~= before + buffer.vertices@.take(size as int));
            let layout = VertexBufferLayout { offset: this_offset, format: buffer.format.clone() };
            vertex_layouts.push(layout);
            assert(layout_views(vertex_layouts@) =~= layouts_before.push(layout@));
            i += 1;
        }
        proof {
            assert(buffers.take(n as int) =~= buffers);
            assert(layout_views(vertex_layouts@) =~= packed_layouts(buffers, count as int));
        }
        let buffer_size = data.len();
        if buffer_size > usize::MAX - (align - 1) {
            return Err(BuildError::TooLarge);
        }
        let len = match &self.indices {
            None => count,
            Some(indices) => indices.indices.len() / index_stride(indices.index_type),
        };
        if len > u32::MAX as usize {
            return Err(BuildError::TooLarge);
        }
        let staging_size = align_by(align, buffer_size) as u64;

        sort_layouts(&mut vertex_layouts);

        Ok(
            MeshUpload {
                vertex_count: count as u32,
                staging_size,
                vertex_data: data,
                vertex_layouts,
                index_type: match &self.indices {
                    None => None,
                    Some(indices) => Some(indices.index_type),
                },
                prim: self.prim,
                len: len as u32,
            },
        )
    }
}

/// Newtype for a `MeshBuilder` that is handed on as the data of a mesh asset.
pub struct MeshData(pub MeshBuilder);

impl From<MeshBuilder> for MeshData {
    fn from(builder: MeshBuilder) -> (data: MeshData) {
        MeshData(builder)
    }
}

impl vstd::std_specs::convert::FromSpecImpl<MeshBuilder> for MeshData {
    open spec fn obeys_from_spec() -> bool {
        true
    }

    open spec fn from_spec(builder: MeshBuilder) -> MeshData {
        MeshData(builder)
    }
}

} // verus!
