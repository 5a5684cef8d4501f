//! Flat-shaded render data: per node, a flat list of triangle corners and
//! one normal per corner, the same for the three corners of a triangle.
use vstd::prelude::*;
use crate::asset::mesh::{MeshView, Model};
use crate::beagle_math::{Quaternion, Vector3};
use crate::error::{collect, lemma_collect_failure_persists, viewed, StructuralError};
use crate::gltf::{expanded, is_flat_shading, GLTF};

verus! {

/// Shading parameters of one node.
#[derive(Debug, Clone, Copy, PartialEq, Eq, Structural)]
pub struct Material {
    pub diffuse_color: Vector3,
    pub ambient_color: Vector3,
    pub specular_color: Vector3,
    pub shininess_factor: u32,
}

/// One node, ready for upload: `vertex_positions` holds one entry per
/// triangle corner, and `vertex_normals` the normal of each corner.
#[derive(Debug)]
pub struct RenderableMeshData {
    pub name: String,
    pub children: Vec<u16>,
    pub material: Material,
    pub translation: Vector3,
    pub scale: Vector3,
    pub rotation: Quaternion,
    pub vertex_positions: Vec<Vector3>,
    pub vertex_normals: Vec<Vector3>,
}

pub struct RenderableMeshDataView {
    pub name: Seq<char>,
    pub children: Seq<u16>,
    pub material: Material,
    pub translation: Vector3,
    pub scale: Vector3,
    pub rotation: Quaternion,
    pub vertex_positions: Seq<Vector3>,
    pub vertex_normals: Seq<Vector3>,
}

impl DeepView for RenderableMeshData {
    type V = RenderableMeshDataView;

    open spec fn deep_view(&self) -> RenderableMeshDataView {
        RenderableMeshDataView {
            name: self.name@,
            children: self.children@,
            material: self.material,
            translation: self.translation,
            scale: self.scale,
            rotation: self.rotation,
            vertex_positions: self.vertex_positions@,
            vertex_normals: self.vertex_normals@,
        }
    }
}

/// The render data of a whole model, one entry per node, in node order.
#[derive(Debug)]
pub struct RenderData {
    pub renderable_mesh_data: Vec<RenderableMeshData>,
}

impl DeepView for RenderData {
    type V = Seq<RenderableMeshDataView>;

    open spec fn deep_view(&self) -> Seq<RenderableMeshDataView> {
        self.renderable_mesh_data.deep_view()
    }
}

/// Why a mesh cannot be rendered, if it cannot: an index that names no
/// vertex is `IndexOutOfRange`, and an index list that is not made of whole
/// triangles is `InvalidTopology`.
pub open spec fn render_check(mesh: MeshView) -> Result<(), StructuralError> {
    match expanded(mesh.indices, mesh.vertex_positions) {
        Err(e) => Err(e),
        Ok(flat) => if flat.len() % 3 != 0 {
            Err(StructuralError::InvalidTopology)
        } else {
            Ok(())
        },
    }
}

pub open spec fn render_checks(meshes: Seq<MeshView>) -> spec_fn(int) -> Result<
    (),
    StructuralError,
> {
    |i: int| render_check(meshes[i])
}

/// `data` is `mesh` made ready for upload: name, children, transform and
/// material are carried over, the positions are the vertex pool expanded by
/// the index list, and the normals are a flat shading of those positions.
pub open spec fn renders<F: Fn(Vector3, Vector3, Vector3) -> Vector3>(
    face_normal: F,
    mesh: MeshView,
    data: RenderableMeshDataView,
) -> bool {
    &&& data.name == mesh.name
    &&& data.children == mesh.children
    &&& data.translation == mesh.translation
    &&& data.scale == mesh.scale
    &&& data.rotation == mesh.rotation
    &&& data.material == (Material {
        diffuse_color: mesh.material.diffuse_color,
        ambient_color: mesh.material.ambient_color,
        specular_color: mesh.material.specular_color,
        shininess_factor: mesh.material.shininess_factor,
    })
    &&& expanded(mesh.indices, mesh.vertex_positions) == Ok::<Seq<Vector3>, StructuralError>(
        data.vertex_positions,
    )
    &&& data.vertex_positions.len() % 3 == 0
    &&& is_flat_shading(face_normal, data.vertex_positions, data.vertex_normals)
}

impl RenderData {
    /// Makes every mesh of `model` ready for upload, in order: expands its
    /// vertex pool by its index list and gives every triangle the normal
    /// that `face_normal` computes from its three corners.  The first mesh
    /// that cannot be rendered fails the whole model.
    pub fn from_model<F: Fn(Vector3, Vector3, Vector3) -> Vector3>(
        model: &Model,
        face_normal: &F,
    ) -> (r: Result<RenderData, StructuralError>)
        requires
            forall|a: Vector3, b: Vector3, c: Vector3| call_requires(*face_normal, (a, b, c)),
        ensures
            match r {
                Ok(data) => {
                    &&& collect(model.meshes@.len(), render_checks(model.deep_view())) is Ok
                    &&& data.deep_view().len() == model.deep_view().len()
                    &&& forall|i: int|
                        0 <= i < model.deep_view().len() ==> renders(
                            *face_normal,
                            model.deep_view()[i],
                            #[trigger] data.deep_view()[i],
                        )
                },
                Err(e) => collect(model.meshes@.len(), render_checks(model.deep_view())) == Err::<
                    Seq<()>,
                    StructuralError,
                >(e),
            },
    {
        let mut renderable_meshes: Vec<RenderableMeshData> = Vec::new();
        let mut i: usize = 0;
        while i < model.meshes.len()
            invariant
                i <= model.meshes@.len(),
                model.deep_view().len() == model.meshes@.len(),
                forall|a: Vector3, b: Vector3, c: Vector3| call_requires(*face_normal, (a, b, c)),
                collect(i as nat, render_checks(model.deep_view())) is Ok,
                renderable_meshes.deep_view().len() == i,
                forall|j: int|
                    0 <= j < i ==> renders(
                        *face_normal,
                        model.deep_view()[j],
                        #[trigger] renderable_meshes.deep_view()[j],
                    ),
            decreases model.meshes@.len() - i,
        {
            let mesh = &model.meshes[i];
            assert(model.deep_view()[i as int] == mesh.deep_view());
            let vertex_positions = match RenderData::expand_vertex_buffer_by_indices(
                &mesh.indices,
                &mesh.vertex_positions,
            ) {
                Ok(flat) => flat,
                Err(e) => {
                    proof {
                        lemma_collect_failure_persists(
                            (i + 1) as nat,
                            model.meshes@.len(),
                            render_checks(model.deep_view()),
                        );
                    }
                    return Err(e);
                },
            };
            let vertex_normals = match RenderData::calculate_vertex_normals(
                &vertex_positions,
                face_normal,
            ) {
                Ok(normals) => normals,
                Err(e) => {
                    proof {
                        lemma_collect_failure_persists(
                            (i + 1) as nat,
                            model.meshes@.len(),
                            render_checks(model.deep_view()),
                        );
                    }
                    return Err(e);
                },
            };
            let data = RenderableMeshData {
                name: mesh.name.clone(),
                children: mesh.children.clone(),
                material: Material {
                    diffuse_color: mesh.material.diffuse_color,
                    ambient_color: mesh.material.ambient_color,
                    specular_color: mesh.material.specular_color,
                    shininess_factor: mesh.material.shininess_factor,
                },
                translation: mesh.translation,
                scale: mesh.scale,
                rotation: mesh.rotation,
                vertex_positions,
                vertex_normals,
            };
            let ghost before = renderable_meshes.deep_view();
            renderable_meshes.push(data);
            proof {
                assert(renderable_meshes.deep_view() =~= before.push(data.deep_view()));
                assert(renders(*face_normal, model.deep_view()[i as int], data.deep_view()));
            }
            i = i + 1;
        }
        Ok(RenderData { renderable_mesh_data: renderable_meshes })
    }

    /// Entry `k` of the result is the vertex that `indices[k]` names.
    pub fn expand_vertex_buffer_by_indices<T: Copy>(indices: &Vec<u16>, vertex_buffer: &Vec<T>) -> (r:
        Result<Vec<T>, StructuralError>)
        ensures
            viewed(r) == expanded(indices@, vertex_buffer@),
    {
        GLTF::expand_by_indices(indices, vertex_buffer)
    }

    /// One normal per triangle corner, the same for the three corners of a
    /// triangle.
    pub fn calculate_vertex_normals<F: Fn(Vector3, Vector3, Vector3) -> Vector3>(
        vertex_positions: &Vec<Vector3>,
        face_normal: &F,
    ) -> (r: Result<Vec<Vector3>, StructuralError>)
        requires
            forall|a: Vector3, b: Vector3, c: Vector3| call_requires(*face_normal, (a, b, c)),
        ensures
            vertex_positions@.len() % 3 != 0 ==> r == Err::<Vec<Vector3>, StructuralError>(
                StructuralError::InvalidTopology,
            ),
            vertex_positions@.len() % 3 == 0 ==> r is Ok && is_flat_shading(
                *face_normal,
                vertex_positions@,
                r->Ok_0@,
            ),
    {
        GLTF::calculate_vertex_normals(vertex_positions, face_normal)
    }
}

} // verus!
