//! A built mesh: the buffers of a mesh on the device with the layouts of
//! its vertex data, and the commands that bind and draw it.
use crate::builder::{IndexType, MeshBuilder, MeshUpload, Primitive};
use crate::resolve::{
    all_resolved, layout_formats, layout_views, offsets_resolve, resolve_all, Incompatible, LayoutSpec,
    VertexBufferLayout,
};
use crate::vertex::{format_views, formats_sorted, FormatSpec, VertexFormat};
use std::ops::Range;
use vstd::prelude::*;

verus! {

/// Index buffer with its type.
#[derive(Debug)]
pub struct IndexBuffer<B> {
    pub buffer: B,
    pub index_type: IndexType,
}

/// Single mesh is a collection of buffer ranges that provides available attributes.
/// Usually exactly one mesh is used per draw call.
#[derive(Debug)]
pub struct BackendMesh<B> {
    vertex_buffer: B,
    vertex_layouts: Vec<VertexBufferLayout>,
    index_buffer: Option<IndexBuffer<B>>,
    prim: Primitive,
    len: u32,
}

/// What to bind before a mesh is drawn.
#[derive(Debug)]
pub struct Binding {
    /// Type of the indices, where the index buffer of the mesh is to be bound at offset 0.
    pub index_type: Option<IndexType>,
    /// Binding of the first vertex buffer.
    pub first_binding: u32,
    /// Offsets into the vertex buffer of the mesh, one for each binding in order.
    pub offsets: Vec<u64>,
    /// Number of vertices that a draw runs over.
    pub len: u32,
}

/// The draw that follows the binding of a mesh.
#[derive(Debug)]
pub struct DrawCall {
    pub binding: Binding,
    /// Whether the draw goes through the index buffer.
    pub indexed: bool,
    /// The vertices, or the indices where the draw is indexed, that are drawn.
    pub vertices: Range<u32>,
    /// The instances that are drawn.
    pub instances: Range<u32>,
}

impl Binding {
    /// The binding is that of `mesh` for the requested formats, from `first_binding` on.
    pub open spec fn binds<B>(
        &self,
        mesh: &BackendMesh<B>,
        first_binding: u32,
        formats: Seq<FormatSpec>,
    ) -> bool {
        &&& offsets_resolve(mesh.layouts(), formats, self.offsets@)
        &&& self.index_type == mesh.index_type()
        &&& self.first_binding == first_binding
        &&& self.len == mesh.draw_len()
    }
}

impl DrawCall {
    /// The call binds `mesh` for the requested formats and draws all its
    /// vertices, through the index buffer where it has one, for the given instances.
    pub open spec fn draws<B>(
        &self,
        mesh: &BackendMesh<B>,
        first_binding: u32,
        formats: Seq<FormatSpec>,
        instances: Range<u32>,
    ) -> bool {
        &&& self.binding.binds(mesh, first_binding, formats)
        &&& self.indexed == mesh.index_type() is Some
        &&& self.vertices.start == 0
        &&& self.vertices.end == mesh.draw_len()
        &&& self.instances == instances
    }
}

impl MeshUpload {
    /// The mesh of this upload, once the device holds its buffers.
    pub fn into_mesh<B>(self, vertex_buffer: B, index_buffer: Option<B>) -> (mesh: BackendMesh<B>)
        requires
            self.well_formed(),
            index_buffer is Some == self.index_type is Some,
        ensures
            mesh.well_formed(),
            mesh.layouts() == layout_views(self.vertex_layouts@),
            mesh.index_type() == self.index_type,
            mesh.prim() == self.prim,
            mesh.draw_len() == self.len,
            mesh.buffer() == vertex_buffer,
            mesh.indices() == index_buffer,
    {
        let index_type = self.index_type;
        BackendMesh {
            vertex_buffer,
            vertex_layouts: self.vertex_layouts,
            index_buffer: match index_buffer {
                Some(buffer) => Some(IndexBuffer { buffer, index_type: index_type.unwrap() }),
                None => None,
            },
            prim: self.prim,
            len: self.len,
        }
    }
}

impl<B> BackendMesh<B> {
    /// The layouts of the vertex data of the mesh.
    pub closed spec fn layouts(&self) -> Seq<LayoutSpec> {
        layout_views(self.vertex_layouts@)
    }

    /// The type of the indices, where the mesh has an index buffer.
    pub closed spec fn index_type(&self) -> Option<IndexType> {
        match self.index_buffer {
            Some(index_buffer) => Some(index_buffer.index_type),
            None => None,
        }
    }

    /// The index buffer on the device, where the mesh has one.
    pub closed spec fn indices(&self) -> Option<B> {
        match self.index_buffer {
            Some(index_buffer) => Some(index_buffer.buffer),
            None => None,
        }
    }

    /// The vertex buffer on the device.
    pub closed spec fn buffer(&self) -> B {
        self.vertex_buffer
    }

    /// The primitive type of the mesh.
    pub closed spec fn prim(&self) -> Primitive {
        self.prim
    }

    /// Number of vertices that a draw runs over.
    pub closed spec fn draw_len(&self) -> u32 {
        self.len
    }

    /// The layouts are in canonical order of their formats.
    pub open spec fn well_formed(&self) -> bool {
        formats_sorted(layout_formats(self.layouts()))
    }

    /// Build new mesh with `MeshBuilder`.
    pub fn builder() -> (builder: MeshBuilder)
        ensures
            builder@.buffers.len() == 0,
            builder@.indices is None,
            builder@.prim == Primitive::TriangleList,
    {
        let fresh = MeshBuilder::new();
        fresh
    }

    /// Primitive type of the `Mesh`.
    pub fn primitive(&self) -> (prim: Primitive)
        ensures
            prim == self.prim(),
    {
        self.prim
    }

    /// Returns the number of vertices that will be drawn
    /// in the mesh.  For a mesh with no index buffer,
    /// this is the same as the number of vertices, or for
    /// a mesh with indices, this is the same as the number
    /// of indices.
    pub fn len(&self) -> (len: u32)
        ensures
            len == self.draw_len(),
    {
        self.len
    }

    /// The vertex buffer on the device.
    pub fn vertex_buffer(&self) -> (buffer: &B)
        ensures
            *buffer == self.buffer(),
    {
        &self.vertex_buffer
    }

    /// The index buffer on the device with the type of its indices, where the mesh has one.
    pub fn index_buffer(&self) -> (index_buffer: Option<&IndexBuffer<B>>)
        ensures
            index_buffer is Some == self.index_type() is Some,
            index_buffer is Some ==> Some(index_buffer->Some_0.index_type) == self.index_type()
                && Some(index_buffer->Some_0.buffer) == self.indices(),
    {
        self.index_buffer.as_ref()
    }

    /// The layouts of the vertex data, in canonical order of their formats.
    pub fn vertex_layouts(&self) -> (layouts: &Vec<VertexBufferLayout>)
        ensures
            layout_views(layouts@) == self.layouts(),
    {
        &self.vertex_layouts
    }

    /// The offsets into the vertex buffer at which the data of the requested
    /// formats starts, in the order of the request.
    pub fn get_vertex_iter(&self, formats: &[VertexFormat]) -> (r: Result<Vec<u64>, Incompatible>)
        ensures
            r is Ok == all_resolved(self.layouts(), format_views(formats@)),
            r is Ok ==> offsets_resolve(self.layouts(), format_views(formats@), r->Ok_0@),
            r is Err ==> r->Err_0.reports(self.layouts(), format_views(formats@)),
    {
        resolve_all(self.vertex_layouts.as_slice(), formats)
    }

    /// Bind buffers to specified attribute locations.
    pub fn bind(&self, first_binding: u32, formats: &[VertexFormat]) -> (r: Result<
        Binding,
        Incompatible,
    >)
        ensures
            r is Ok == all_resolved(self.layouts(), format_views(formats@)),
            r is Ok ==> r->Ok_0.binds(self, first_binding, format_views(formats@)),
            r is Err ==> r->Err_0.reports(self.layouts(), format_views(formats@)),
    {
        match self.get_vertex_iter(formats) {
            Ok(offsets) => Ok(
                Binding {
                    index_type: match &self.index_buffer {
                        Some(index_buffer) => Some(index_buffer.index_type),
                        None => None,
                    },
                    first_binding,
                    offsets,
                    len: self.len,
                },
            ),
            Err(e) => Err(e),
        }
    }

    /// Bind buffers to specified attribute locations and issue draw calls with given instance range.
    pub fn bind_and_draw(
        &self,
        first_binding: u32,
        formats: &[VertexFormat],
        instance_range: Range<u32>,
    ) -> (r: Result<DrawCall, Incompatible>)
        ensures
            r is Ok == all_resolved(self.layouts(), format_views(formats@)),
            r is Ok ==> r->Ok_0.draws(self, first_binding, format_views(formats@), instance_range),
            r is Err ==> r->Err_0.reports(self.layouts(), format_views(formats@)),
    {
        match self.bind(first_binding, formats) {
            Ok(binding) => {
                let indexed = binding.index_type.is_some();
                Ok(
                    DrawCall {
                        binding,
                        indexed,
                        vertices: 0..self.len,
                        instances: instance_range,
                    },
                )
            },
            Err(e) => Err(e),
        }
    }
}

} // verus!
