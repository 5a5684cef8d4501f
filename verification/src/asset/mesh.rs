//! The resolver: from a document to one mesh per node, with typed vertex
//! data, local transform and material.
use vstd::prelude::*;
use crate::beagle_math::{Quaternion, Vector3, ZERO_BITS};
use crate::error::{collect, deeply_viewed, lemma_collect_failure_persists, viewed, StructuralError};
use crate::gltf::{
    accessor_bytes, classify_component, classify_element, component_kind, element_kind,
    BinaryDecode, BufferCache, BufferComponent, BufferComponentType,
};
use crate::gltf2::{File, Node};
use crate::shared::{decoded_run, FromBinary};

verus! {

/// Every node of a document, resolved, in the order of the document's nodes.
#[derive(Debug)]
pub struct Model {
    pub meshes: Vec<Mesh>,
}

/// One resolved node: its local transform, the nodes below it, and the
/// geometry of its mesh as a shared vertex pool with an index list.
#[derive(Debug)]
pub struct Mesh {
    pub name: String,
    pub children: Vec<u16>,
    pub translation: Vector3,
    pub scale: Vector3,
    pub rotation: Quaternion,
    pub vertex_positions: Vec<Vector3>,
    pub indices: Vec<u16>,
    pub material: Material,
}

/// Shading parameters.
#[derive(Debug, Clone, Copy, PartialEq, Eq, Structural)]
pub struct Material {
    pub diffuse_color: Vector3,
    pub ambient_color: Vector3,
    pub specular_color: Vector3,
    pub shininess_factor: u32,
}

impl Default for Material {
    /// The material of a primitive without one.
    fn default() -> (material: Material)
        ensures
            material == no_material(),
    {
        let zero = Vector3::zero();
        Material {
            diffuse_color: zero,
            ambient_color: zero,
            specular_color: zero,
            shininess_factor: ZERO_BITS,
        }
    }
}

impl Default for Mesh {
    /// A nameless mesh without children or geometry, all zeros.
    fn default() -> (mesh: Mesh)
        ensures
            mesh.deep_view() == (MeshView {
                name: Seq::empty(),
                children: Seq::empty(),
                translation: Vector3 { x: ZERO_BITS, y: ZERO_BITS, z: ZERO_BITS },
                scale: Vector3 { x: ZERO_BITS, y: ZERO_BITS, z: ZERO_BITS },
                rotation: Quaternion {
                    w: ZERO_BITS,
                    v: Vector3 { x: ZERO_BITS, y: ZERO_BITS, z: ZERO_BITS },
                },
                vertex_positions: Seq::empty(),
                indices: Seq::empty(),
                material: no_material(),
            }),
    {
        Mesh {
            name: String::new(),
            children: Vec::new(),
            translation: Vector3::zero(),
            scale: Vector3::zero(),
            rotation: Quaternion::new(ZERO_BITS, ZERO_BITS, ZERO_BITS, ZERO_BITS),
            vertex_positions: Vec::new(),
            indices: Vec::new(),
            material: Material::default(),
        }
    }
}

impl Default for Model {
    /// The model of a document without nodes.
    fn default() -> (model: Model)
        ensures
            model.meshes@.len() == 0,
    {
        Model { meshes: Vec::new() }
    }
}

pub struct MeshView {
    pub name: Seq<char>,
    pub children: Seq<u16>,
    pub translation: Vector3,
    pub scale: Vector3,
    pub rotation: Quaternion,
    pub vertex_positions: Seq<Vector3>,
    pub indices: Seq<u16>,
    pub material: Material,
}

impl DeepView for Mesh {
    type V = MeshView;

    open spec fn deep_view(&self) -> MeshView {
        MeshView {
            name: self.name@,
            children: self.children@,
            translation: self.translation,
            scale: self.scale,
            rotation: self.rotation,
            vertex_positions: self.vertex_positions@,
            indices: self.indices@,
            material: self.material,
        }
    }
}

impl DeepView for Model {
    type V = Seq<MeshView>;

    open spec fn deep_view(&self) -> Seq<MeshView> {
        self.meshes.deep_view()
    }
}

/// The material of a primitive without one: all zeros.
pub open spec fn no_material() -> Material {
    let zero = Vector3 { x: ZERO_BITS, y: ZERO_BITS, z: ZERO_BITS };
    Material {
        diffuse_color: zero,
        ambient_color: zero,
        specular_color: zero,
        shininess_factor: ZERO_BITS,
    }
}

/// The child list of a node as node indices.  A child that names no node, or
/// does not fit sixteen bits, is `IndexOutOfRange`.
pub open spec fn resolved_children(children: Seq<i32>, node_count: nat) -> Result<
    Seq<u16>,
    StructuralError,
> {
    if forall|k: int|
        0 <= k < children.len() ==> 0 <= (#[trigger] children[k]) < node_count && children[k]
            <= u16::MAX {
        Ok(Seq::new(children.len(), |k: int| children[k] as u16))
    } else {
        Err(StructuralError::IndexOutOfRange)
    }
}

/// The shading parameters that material `index` carries, and zeros for no
/// material (-1).
pub open spec fn resolved_material(file: &File, index: int) -> Result<Material, StructuralError> {
    if index == -1 {
        Ok(no_material())
    } else if 0 <= index < file.materials@.len() {
        let extras = file.materials@[index].extras;
        Ok(
            Material {
                diffuse_color: Vector3::of_seq(extras.diffuse@),
                ambient_color: Vector3::of_seq(extras.ambient@),
                specular_color: Vector3::of_seq(extras.specular@),
                shininess_factor: extras.shininess_factor,
            },
        )
    } else {
        Err(StructuralError::IndexOutOfRange)
    }
}

/// The elements of type `T` that the bytes of accessor `index` hold.
pub open spec fn typed_elements<T: BinaryDecode>(file: &File, index: int) -> Result<
    Seq<T>,
    StructuralError,
> {
    match accessor_bytes(file.accessors@, file.buffer_views@, file.buffers@, index) {
        Err(e) => Err(e),
        Ok(bytes) => decoded_run::<T>(bytes),
    }
}

/// The vertex positions that accessor `index` holds.  Positions are triples
/// of binary32 values: an accessor that declares anything else is
/// `UnsupportedAccessorType`.
pub open spec fn resolved_positions(file: &File, index: int) -> Result<
    Seq<Vector3>,
    StructuralError,
> {
    if !(0 <= index < file.accessors@.len()) {
        Err(StructuralError::IndexOutOfRange)
    } else {
        let accessor = file.accessors@[index];
        if element_kind(accessor.element_type@) == Some(BufferComponent::Vec3) && component_kind(
            accessor.component_type,
            accessor.normalized,
        ) == Some(BufferComponentType::Float32) {
            typed_elements::<Vector3>(file, index)
        } else {
            Err(StructuralError::UnsupportedAccessorType)
        }
    }
}

/// What a node resolves to.  The checks come in this order, and the first
/// that fails is the node's failure: the children, the mesh index, the
/// number of primitives (exactly one), the material, the positions, the
/// indices.
pub open spec fn resolved_node(file: &File, node: Node) -> Result<MeshView, StructuralError> {
    match resolved_children(node.children@, file.nodes@.len()) {
        Err(e) => Err(e),
        Ok(children) => if !(0 <= node.mesh < file.meshes@.len()) {
            Err(StructuralError::IndexOutOfRange)
        } else {
            let mesh = file.meshes@[node.mesh as int];
            if mesh.primitives@.len() != 1 {
                Err(StructuralError::UnsupportedPrimitiveCount)
            } else {
                let primitive = mesh.primitives@[0];
                match resolved_material(file, primitive.material as int) {
                    Err(e) => Err(e),
                    Ok(material) => match resolved_positions(
                        file,
                        primitive.attributes.position as int,
                    ) {
                        Err(e) => Err(e),
                        Ok(vertex_positions) => match typed_elements::<u16>(
                            file,
                            primitive.indices as int,
                        ) {
                            Err(e) => Err(e),
                            Ok(indices) => Ok(
                                MeshView {
                                    name: mesh.name@,
                                    children,
                                    translation: Vector3::of_seq(node.translation@),
                                    scale: Vector3::of_seq(node.scale@),
                                    rotation: Quaternion::of_seq(node.rotation@),
                                    vertex_positions,
                                    indices,
                                    material,
                                },
                            ),
                        },
                    },
                }
            }
        },
    }
}

pub open spec fn node_resolver(file: &File) -> spec_fn(int) -> Result<MeshView, StructuralError> {
    |i: int| resolved_node(file, file.nodes@[i])
}

/// What a document resolves to: one mesh per node, at the node's index, or
/// the failure of the first node that fails.
pub open spec fn resolved_model(file: &File) -> Result<Seq<MeshView>, StructuralError> {
    collect(file.nodes@.len(), node_resolver(file))
}

/// A resolved model has exactly one mesh for each node of the document.
pub proof fn lemma_model_mirrors_nodes(file: &File)
    ensures
        resolved_model(file) matches Ok(meshes) ==> meshes.len() == file.nodes@.len()
            && forall|i: int|
            0 <= i < meshes.len() ==> resolved_node(file, file.nodes@[i]) == Ok::<
                MeshView,
                StructuralError,
            >(#[trigger] meshes[i]),
{
    crate::error::lemma_collect_success(file.nodes@.len(), node_resolver(file));
    if resolved_model(file) is Ok {
        let meshes = resolved_model(file)->Ok_0;
        assert forall|i: int| 0 <= i < meshes.len() implies resolved_node(file, file.nodes@[i])
            == Ok::<MeshView, StructuralError>(#[trigger] meshes[i]) by {
            assert(node_resolver(file)(i) == Ok::<MeshView, StructuralError>(meshes[i]));
        }
    }
}

fn parse_children(children: &Vec<i32>, node_count: usize) -> (r: Result<Vec<u16>, StructuralError>)
    ensures
        viewed(r) == resolved_children(children@, node_count as nat),
{
    let mut list: Vec<u16> = Vec::new();
    let mut k: usize = 0;
    while k < children.len()
        invariant
            k <= children@.len(),
            list@.len() == k,
            forall|j: int|
                0 <= j < k ==> 0 <= (#[trigger] children@[j]) < node_count && children@[j]
                    <= u16::MAX,
            forall|j: int| 0 <= j < k ==> list@[j] == children@[j] as u16,
        decreases children@.len() - k,
    {
        let child = children[k];
        if child < 0 || child > 65535 || child as usize >= node_count {
            return Err(StructuralError::IndexOutOfRange);
        }
        list.push(child as u16);
        k = k + 1;
    }
    assert(list@ =~= Seq::new(children@.len(), |k: int| children@[k] as u16));
    Ok(list)
}

fn parse_material(gltf_file: &File, index: i32) -> (r: Result<Material, StructuralError>)
    ensures
        r == resolved_material(gltf_file, index as int),
{
    if index == -1 {
        return Ok(Material::default());
    }
    if index < 0 || index as usize >= gltf_file.materials.len() {
        return Err(StructuralError::IndexOutOfRange);
    }
    let mesh_material = &gltf_file.materials[index as usize];
    Ok(
        Material {
            diffuse_color: Vector3::from_array(&mesh_material.extras.diffuse),
            ambient_color: Vector3::from_array(&mesh_material.extras.ambient),
            specular_color: Vector3::from_array(&mesh_material.extras.specular),
            shininess_factor: mesh_material.extras.shininess_factor,
        },
    )
}

/// Decodes the bytes of accessor `accessor_index` as elements of type `T`.
pub fn get_buffer_data_for_acessor<T: FromBinary>(
    gltf_file: &File,
    cache: &mut BufferCache,
    accessor_index: usize,
) -> (r: Result<Vec<T>, StructuralError>)
    requires
        old(cache).matches(gltf_file.buffers@),
    ensures
        final(cache).matches(gltf_file.buffers@),
        viewed(r) == typed_elements::<T>(gltf_file, accessor_index as int),
{
    match cache.locate(
        &gltf_file.accessors,
        &gltf_file.buffer_views,
        &gltf_file.buffers,
        accessor_index,
    ) {
        Err(e) => Err(e),
        Ok(range) => T::from_binary_collection(cache.bytes(&range)),
    }
}

fn parse_positions(gltf_file: &File, cache: &mut BufferCache, index: i32) -> (r: Result<
    Vec<Vector3>,
    StructuralError,
>)
    requires
        old(cache).matches(gltf_file.buffers@),
    ensures
        final(cache).matches(gltf_file.buffers@),
        viewed(r) == resolved_positions(gltf_file, index as int),
{
    if index < 0 || index as usize >= gltf_file.accessors.len() {
        return Err(StructuralError::IndexOutOfRange);
    }
    let accessor = &gltf_file.accessors[index as usize];
    let is_vec3 = match classify_element(&accessor.element_type) {
        Some(BufferComponent::Vec3) => true,
        _ => false,
    };
    let is_binary32 = match classify_component(accessor.component_type, accessor.normalized) {
        Some(BufferComponentType::Float32) => true,
        _ => false,
    };
    if !(is_vec3 && is_binary32) {
        return Err(StructuralError::UnsupportedAccessorType);
    }
    get_buffer_data_for_acessor::<Vector3>(gltf_file, cache, index as usize)
}

/// Resolves one node of `gltf_file`.
pub fn parse_node(gltf_file: &File, cache: &mut BufferCache, node: &Node) -> (r: Result<
    Mesh,
    StructuralError,
>)
    requires
        old(cache).matches(gltf_file.buffers@),
    ensures
        final(cache).matches(gltf_file.buffers@),
        deeply_viewed(r) == resolved_node(gltf_file, *node),
{
    let translation = Vector3::from_array(&node.translation);
    let scale = Vector3::from_array(&node.scale);
    let rotation = Quaternion::from_array(&node.rotation);
    let children = match parse_children(&node.children, gltf_file.nodes.len()) {
        Ok(children) => children,
        Err(e) => {
            return Err(e);
        },
    };
    if node.mesh < 0 || node.mesh as usize >= gltf_file.meshes.len() {
        return Err(StructuralError::IndexOutOfRange);
    }
    let root_mesh = &gltf_file.meshes[node.mesh as usize];
    if root_mesh.primitives.len() != 1 {
        return Err(StructuralError::UnsupportedPrimitiveCount);
    }
    let mesh_primitive = &root_mesh.primitives[0];
    let material = match parse_material(gltf_file, mesh_primitive.material) {
        Ok(material) => material,
        Err(e) => {
            return Err(e);
        },
    };
    let vertex_positions = match parse_positions(
        gltf_file,
        cache,
        mesh_primitive.attributes.position,
    ) {
        Ok(positions) => positions,
        Err(e) => {
            return Err(e);
        },
    };
    let indices = match get_buffer_data_for_acessor::<u16>(
        gltf_file,
        cache,
        mesh_primitive.indices as usize,
    ) {
        Ok(indices) => indices,
        Err(e) => {
            return Err(e);
        },
    };
    Ok(
        Mesh {
            name: root_mesh.name.clone(),
            children,
            translation,
            scale,
            rotation,
            vertex_positions,
            indices,
            material,
        },
    )
}

/// The first node of `gltf_file` that cannot be resolved, with its failure:
/// every node before it resolves.  `None` where every node resolves.
pub fn first_failure(gltf_file: &File) -> (found: Option<(usize, StructuralError)>)
    ensures
        match found {
            None => resolved_model(gltf_file) is Ok,
            Some((index, e)) => {
                &&& index < gltf_file.nodes@.len()
                &&& resolved_node(gltf_file, gltf_file.nodes@[index as int]) == Err::<
                    MeshView,
                    StructuralError,
                >(e)
                &&& forall|i: int|
                    0 <= i < index ==> (#[trigger] resolved_node(
                        gltf_file,
                        gltf_file.nodes@[i],
                    )) is Ok
                &&& resolved_model(gltf_file) == Err::<Seq<MeshView>, StructuralError>(e)
            },
        },
{
    let mut cache = BufferCache::new(&gltf_file.buffers);
    let mut i: usize = 0;
    while i < gltf_file.nodes.len()
        invariant
            i <= gltf_file.nodes@.len(),
            cache.matches(gltf_file.buffers@),
            collect(i as nat, node_resolver(gltf_file)) is Ok,
            forall|j: int|
                0 <= j < i ==> (#[trigger] resolved_node(gltf_file, gltf_file.nodes@[j])) is Ok,
        decreases gltf_file.nodes@.len() - i,
    {
        match parse_node(gltf_file, &mut cache, &gltf_file.nodes[i]) {
            Ok(_) => {
                assert(node_resolver(gltf_file)(i as int) is Ok);
            },
            Err(e) => {
                proof {
                    assert(node_resolver(gltf_file)(i as int) == Err::<MeshView, StructuralError>(e));
                    lemma_collect_failure_persists(
                        (i + 1) as nat,
                        gltf_file.nodes@.len(),
                        node_resolver(gltf_file),
                    );
                }
                return Some((i, e));
            },
        }
        i = i + 1;
    }
    None
}

/// Resolves every node of `gltf_file`, in order.  The result has one mesh
/// per node, at the node's index; the first node that cannot be resolved
/// fails the whole load.
pub fn parse_model(gltf_file: &File) -> (r: Result<Model, StructuralError>)
    ensures
        deeply_viewed(r) == resolved_model(gltf_file),
{
    let mut cache = BufferCache::new(&gltf_file.buffers);
    let mut meshes: Vec<Mesh> = Vec::new();
    let mut i: usize = 0;
    assert(meshes.deep_view() =~= Seq::empty());
    while i < gltf_file.nodes.len()
        invariant
            i <= gltf_file.nodes@.len(),
            cache.matches(gltf_file.buffers@),
            collect(i as nat, node_resolver(gltf_file)) == Ok::<Seq<MeshView>, StructuralError>(
                meshes.deep_view(),
            ),
        decreases gltf_file.nodes@.len() - i,
    {
        match parse_node(gltf_file, &mut cache, &gltf_file.nodes[i]) {
            Ok(mesh) => {
                let ghost before = meshes.deep_view();
                meshes.push(mesh);
                assert(meshes.deep_view() =~= before.push(mesh.deep_view()));
            },
            Err(e) => {
                proof {
                    lemma_collect_failure_persists(
                        (i + 1) as nat,
                        gltf_file.nodes@.len(),
                        node_resolver(gltf_file),
                    );
                }
                return Err(e);
            },
        }
        i = i + 1;
    }
    Ok(Model { meshes })
}

} // verus!
