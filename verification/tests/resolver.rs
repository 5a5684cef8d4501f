use beagle::asset::mesh::{first_failure, get_buffer_data_for_acessor, parse_model, parse_node};
use beagle::asset::mesh::{Material as MeshMaterial, Mesh as ResolvedMesh, Model};
use beagle::beagle_math::{Quaternion, Vector3};
use beagle::error::StructuralError;
use beagle::gltf::{BufferCache, GLTF};
use beagle::gltf2::{
    default_attribute_value, Accessor, Attribute, Buffer, BufferView, Extra, File, Material, Mesh,
    Node, Primitive,
};
use beagle::renderable::flat_shaded::RenderData;

fn v3(x: f32, y: f32, z: f32) -> Vector3 {
    Vector3::new(x.to_bits(), y.to_bits(), z.to_bits())
}

fn floats(v: Vector3) -> [f32; 3] {
    [f32::from_bits(v.x), f32::from_bits(v.y), f32::from_bits(v.z)]
}

/// The unit normal of a triangle by the right-hand rule.
fn face_normal(p0: Vector3, p1: Vector3, p2: Vector3) -> Vector3 {
    let (a, b, c) = (floats(p0), floats(p1), floats(p2));
    let e1 = [b[0] - a[0], b[1] - a[1], b[2] - a[2]];
    let e2 = [c[0] - a[0], c[1] - a[1], c[2] - a[2]];
    let n = [
        e1[1] * e2[2] - e1[2] * e2[1],
        e1[2] * e2[0] - e1[0] * e2[2],
        e1[0] * e2[1] - e1[1] * e2[0],
    ];
    let length = (n[0] * n[0] + n[1] * n[1] + n[2] * n[2]).sqrt();
    v3(n[0] / length, n[1] / length, n[2] / length)
}

fn data_uri(bytes: &[u8]) -> String {
    format!("data:application/octet-stream;base64,{}", base64::encode(bytes))
}

fn accessor(buffer_view: u32, component_type: u32, count: u32, element_type: &str) -> Accessor {
    Accessor {
        buffer_view,
        component_type,
        count,
        normalized: false,
        element_type: element_type.to_string(),
    }
}

fn node(mesh: i32, children: Vec<i32>) -> Node {
    Node {
        children,
        mesh,
        name: String::new(),
        translation: [0; 3],
        scale: [1.0f32.to_bits(); 3],
        rotation: [0, 0, 0, 1.0f32.to_bits()],
    }
}

fn primitive(position: i32, indices: u32, material: i32) -> Primitive {
    Primitive {
        attributes: Attribute {
            position,
            color_0: default_attribute_value(),
            normal: default_attribute_value(),
            texcoord_0: default_attribute_value(),
        },
        indices,
        material,
    }
}

/// One triangle: nine binary32 values followed by three 16-bit indices, in
/// one buffer.
fn triangle_bytes() -> Vec<u8> {
    let mut bytes = Vec::new();
    for value in [0.0f32, 0.0, 0.0, 1.0, 0.0, 0.0, 0.0, 1.0, 0.0] {
        bytes.extend_from_slice(&value.to_le_bytes());
    }
    for index in [0u16, 1, 2] {
        bytes.extend_from_slice(&index.to_le_bytes());
    }
    bytes
}

fn triangle_file() -> File {
    File {
        nodes: vec![node(0, vec![])],
        materials: vec![],
        meshes: vec![Mesh { name: "triangle".to_string(), primitives: vec![primitive(0, 1, -1)] }],
        accessors: vec![accessor(0, 5126, 3, "VEC3"), accessor(1, 5123, 3, "SCALAR")],
        buffer_views: vec![
            BufferView { buffer: 0, byte_length: 36, byte_offset: 0 },
            BufferView { buffer: 0, byte_length: 6, byte_offset: 36 },
        ],
        buffers: vec![Buffer { byte_length: 42, uri: data_uri(&triangle_bytes()) }],
    }
}

#[test]
fn a_triangle_resolves_to_its_corners_and_one_normal() {
    let file = triangle_file();
    let model = parse_model(&file).unwrap();
    assert_eq!(model.meshes.len(), 1);
    assert_eq!(model.meshes[0].name, "triangle");
    assert_eq!(model.meshes[0].indices, vec![0, 1, 2]);

    let data = RenderData::from_model(&model, &face_normal).unwrap();
    assert_eq!(data.renderable_mesh_data.len(), 1);
    let mesh = &data.renderable_mesh_data[0];
    assert_eq!(mesh.name, "triangle");
    assert_eq!(
        mesh.vertex_positions,
        vec![v3(0.0, 0.0, 0.0), v3(1.0, 0.0, 0.0), v3(0.0, 1.0, 0.0)]
    );
    assert_eq!(mesh.vertex_normals.len(), 3);
    for normal in &mesh.vertex_normals {
        assert_eq!(floats(*normal), [0.0, 0.0, 1.0]);
    }
}

#[test]
fn a_buffer_of_another_scheme_fails_the_load() {
    let mut file = triangle_file();
    file.buffers[0].uri = format!("data:image/png;base64,{}", base64::encode(triangle_bytes()));
    assert_eq!(parse_model(&file).err(), Some(StructuralError::UnsupportedScheme));
}

#[test]
fn a_buffer_that_is_no_base64_fails_the_load() {
    let mut file = triangle_file();
    file.buffers[0].uri = "data:application/octet-stream;base64,!!!!".to_string();
    assert_eq!(parse_model(&file).err(), Some(StructuralError::MalformedBase64));
}

#[test]
fn a_buffer_that_no_accessor_reads_is_never_decoded() {
    let mut file = triangle_file();
    file.buffers.push(Buffer { byte_length: 0, uri: "data:image/png;base64,AAAA".to_string() });
    assert!(parse_model(&file).is_ok());
}

#[test]
fn a_document_without_nodes_is_an_empty_model() {
    let mut file = triangle_file();
    file.nodes.clear();
    assert_eq!(parse_model(&file).unwrap().meshes.len(), 0);
}

#[test]
fn every_node_gets_a_mesh_at_its_own_index() {
    let mut file = triangle_file();
    file.meshes.push(Mesh { name: "second".to_string(), primitives: vec![primitive(0, 1, -1)] });
    file.nodes = vec![node(1, vec![1, 2]), node(0, vec![]), node(1, vec![])];
    let model = parse_model(&file).unwrap();
    let names: Vec<&str> = model.meshes.iter().map(|m| m.name.as_str()).collect();
    assert_eq!(names, vec!["second", "triangle", "second"]);
    assert_eq!(model.meshes[0].children, vec![1, 2]);
    assert_eq!(model.meshes[1].children, Vec::<u16>::new());
}

#[test]
fn the_local_transform_is_read_with_the_scalar_part_of_the_rotation_first() {
    let mut file = triangle_file();
    file.nodes[0].translation = [1.0f32.to_bits(), 2.0f32.to_bits(), 3.0f32.to_bits()];
    file.nodes[0].scale = [4.0f32.to_bits(), 5.0f32.to_bits(), 6.0f32.to_bits()];
    file.nodes[0].rotation =
        [0.1f32.to_bits(), 0.2f32.to_bits(), 0.3f32.to_bits(), 0.9f32.to_bits()];
    let model = parse_model(&file).unwrap();
    let mesh = &model.meshes[0];
    assert_eq!(mesh.translation, v3(1.0, 2.0, 3.0));
    assert_eq!(mesh.scale, v3(4.0, 5.0, 6.0));
    assert_eq!(mesh.rotation, Quaternion { w: 0.9f32.to_bits(), v: v3(0.1, 0.2, 0.3) });
    assert_eq!(mesh.rotation, Quaternion::new(0.9f32.to_bits(), 0.1f32.to_bits(), 0.2f32.to_bits(), 0.3f32.to_bits()));
}

#[test]
fn a_primitive_without_material_has_zero_shading_parameters() {
    let model = parse_model(&triangle_file()).unwrap();
    let material = model.meshes[0].material;
    assert_eq!(material.diffuse_color, Vector3::zero());
    assert_eq!(material.ambient_color, Vector3::zero());
    assert_eq!(material.specular_color, Vector3::zero());
    assert_eq!(material.shininess_factor, 0);
}

#[test]
fn a_material_hands_over_its_extras() {
    let mut file = triangle_file();
    file.materials = vec![
        Material {
            name: "unused".to_string(),
            extras: Extra { diffuse: [0; 3], specular: [0; 3], ambient: [0; 3], shininess_factor: 0 },
        },
        Material {
            name: "red".to_string(),
            extras: Extra {
                diffuse: [1.0f32.to_bits(), 0, 0],
                specular: [0.5f32.to_bits(); 3],
                ambient: [0.1f32.to_bits(), 0.2f32.to_bits(), 0.3f32.to_bits()],
                shininess_factor: 32.0f32.to_bits(),
            },
        },
    ];
    file.meshes[0].primitives[0].material = 1;
    let model = parse_model(&file).unwrap();
    let material = model.meshes[0].material;
    assert_eq!(material.diffuse_color, v3(1.0, 0.0, 0.0));
    assert_eq!(material.specular_color, v3(0.5, 0.5, 0.5));
    assert_eq!(material.ambient_color, v3(0.1, 0.2, 0.3));
    assert_eq!(f32::from_bits(material.shininess_factor), 32.0);

    let data = RenderData::from_model(&model, &face_normal).unwrap();
    let carried = data.renderable_mesh_data[0].material;
    assert_eq!(carried.diffuse_color, v3(1.0, 0.0, 0.0));
    assert_eq!(carried.specular_color, v3(0.5, 0.5, 0.5));
    assert_eq!(carried.ambient_color, v3(0.1, 0.2, 0.3));
    assert_eq!(f32::from_bits(carried.shininess_factor), 32.0);
}

#[test]
fn a_material_index_that_names_nothing_is_out_of_range() {
    let mut file = triangle_file();
    file.meshes[0].primitives[0].material = 0;
    assert_eq!(parse_model(&file).err(), Some(StructuralError::IndexOutOfRange));
    file.meshes[0].primitives[0].material = -2;
    assert_eq!(parse_model(&file).err(), Some(StructuralError::IndexOutOfRange));
}

#[test]
fn a_node_without_a_mesh_is_out_of_range() {
    let mut file = triangle_file();
    file.nodes[0].mesh = -1;
    assert_eq!(parse_model(&file).err(), Some(StructuralError::IndexOutOfRange));
    file.nodes[0].mesh = 1;
    assert_eq!(parse_model(&file).err(), Some(StructuralError::IndexOutOfRange));
}

#[test]
fn a_child_that_names_no_node_is_out_of_range() {
    let mut file = triangle_file();
    file.nodes[0].children = vec![1];
    assert_eq!(parse_model(&file).err(), Some(StructuralError::IndexOutOfRange));
    file.nodes[0].children = vec![-1];
    assert_eq!(parse_model(&file).err(), Some(StructuralError::IndexOutOfRange));
    file.nodes[0].children = vec![65536];
    assert_eq!(parse_model(&file).err(), Some(StructuralError::IndexOutOfRange));
    file.nodes[0].children = vec![0];
    assert!(parse_model(&file).is_ok());
}

#[test]
fn a_mesh_needs_exactly_one_primitive() {
    let mut file = triangle_file();
    file.meshes[0].primitives.push(primitive(0, 1, -1));
    assert_eq!(parse_model(&file).err(), Some(StructuralError::UnsupportedPrimitiveCount));
    file.meshes[0].primitives.clear();
    assert_eq!(parse_model(&file).err(), Some(StructuralError::UnsupportedPrimitiveCount));
}

#[test]
fn positions_must_be_triples_of_binary32_values() {
    let mut file = triangle_file();
    file.accessors[0].element_type = "VEC4".to_string();
    assert_eq!(parse_model(&file).err(), Some(StructuralError::UnsupportedAccessorType));

    let mut file = triangle_file();
    file.accessors[0].component_type = 5123;
    assert_eq!(parse_model(&file).err(), Some(StructuralError::UnsupportedAccessorType));

    let mut file = triangle_file();
    file.accessors[0].element_type = "MAT4".to_string();
    assert_eq!(parse_model(&file).err(), Some(StructuralError::UnsupportedAccessorType));

    let mut file = triangle_file();
    file.accessors[0].component_type = 5125;
    assert_eq!(parse_model(&file).err(), Some(StructuralError::UnsupportedAccessorType));
}

#[test]
fn an_absent_position_attribute_is_out_of_range() {
    let mut file = triangle_file();
    file.meshes[0].primitives[0].attributes.position = default_attribute_value();
    assert_eq!(parse_model(&file).err(), Some(StructuralError::IndexOutOfRange));
    file.meshes[0].primitives[0].attributes.position = 2;
    assert_eq!(parse_model(&file).err(), Some(StructuralError::IndexOutOfRange));
}

#[test]
fn an_index_accessor_that_names_nothing_is_out_of_range() {
    let mut file = triangle_file();
    file.meshes[0].primitives[0].indices = 7;
    assert_eq!(parse_model(&file).err(), Some(StructuralError::IndexOutOfRange));
}

#[test]
fn a_buffer_view_or_buffer_that_names_nothing_is_out_of_range() {
    let mut file = triangle_file();
    file.accessors[0].buffer_view = 2;
    assert_eq!(parse_model(&file).err(), Some(StructuralError::IndexOutOfRange));

    let mut file = triangle_file();
    file.buffer_views[1].buffer = 1;
    assert_eq!(parse_model(&file).err(), Some(StructuralError::IndexOutOfRange));
}

#[test]
fn a_view_past_the_end_of_its_buffer_is_out_of_bounds() {
    let mut file = triangle_file();
    file.buffer_views[1].byte_length = 7;
    assert_eq!(parse_model(&file).err(), Some(StructuralError::RangeOutOfBounds));

    let mut file = triangle_file();
    file.buffer_views[0].byte_offset = u32::MAX;
    file.buffer_views[0].byte_length = u32::MAX;
    assert_eq!(parse_model(&file).err(), Some(StructuralError::RangeOutOfBounds));
}

#[test]
fn a_view_that_ends_with_the_buffer_is_in_bounds() {
    let mut file = triangle_file();
    file.buffer_views[1] = BufferView { buffer: 0, byte_length: 0, byte_offset: 42 };
    let model = parse_model(&file).unwrap();
    assert_eq!(model.meshes[0].indices, Vec::<u16>::new());
}

#[test]
fn a_view_that_splits_an_element_is_misaligned() {
    let mut file = triangle_file();
    file.buffer_views[0].byte_length = 35;
    assert_eq!(parse_model(&file).err(), Some(StructuralError::MisalignedBuffer));

    let mut file = triangle_file();
    file.buffer_views[1].byte_length = 5;
    assert_eq!(parse_model(&file).err(), Some(StructuralError::MisalignedBuffer));
}

#[test]
fn the_first_failing_node_decides_the_failure() {
    let mut file = triangle_file();
    file.meshes.push(Mesh { name: "empty".to_string(), primitives: vec![] });
    file.nodes = vec![node(0, vec![]), node(1, vec![]), node(9, vec![])];
    assert_eq!(parse_model(&file).err(), Some(StructuralError::UnsupportedPrimitiveCount));
    file.nodes = vec![node(0, vec![]), node(9, vec![]), node(1, vec![])];
    assert_eq!(parse_model(&file).err(), Some(StructuralError::IndexOutOfRange));
}

#[test]
fn one_node_can_be_resolved_by_itself() {
    let file = triangle_file();
    let mut cache = BufferCache::new(&file.buffers);
    let mesh = parse_node(&file, &mut cache, &file.nodes[0]).unwrap();
    assert_eq!(mesh.vertex_positions, vec![v3(0.0, 0.0, 0.0), v3(1.0, 0.0, 0.0), v3(0.0, 1.0, 0.0)]);
    let again = parse_node(&file, &mut cache, &file.nodes[0]).unwrap();
    assert_eq!(again.vertex_positions, mesh.vertex_positions);
    assert_eq!(again.indices, mesh.indices);
}

#[test]
fn an_accessor_decodes_as_the_type_asked_for() {
    let file = triangle_file();
    let mut cache = BufferCache::new(&file.buffers);
    assert_eq!(get_buffer_data_for_acessor::<u16>(&file, &mut cache, 1), Ok(vec![0, 1, 2]));
    assert_eq!(
        get_buffer_data_for_acessor::<u32>(&file, &mut cache, 0).map(|v| v.len()),
        Ok(9)
    );
    assert_eq!(
        get_buffer_data_for_acessor::<u32>(&file, &mut cache, 1),
        Err(StructuralError::MisalignedBuffer)
    );
    assert_eq!(
        get_buffer_data_for_acessor::<u16>(&file, &mut cache, 2),
        Err(StructuralError::IndexOutOfRange)
    );
}

#[test]
fn indices_expand_the_vertex_pool_in_their_own_order() {
    let pool = vec![10u32, 20, 30, 40];
    let indices = vec![3u16, 0, 0, 2, 1, 3];
    let flat = GLTF::expand_by_indices(&indices, &pool).unwrap();
    assert_eq!(flat, vec![40, 10, 10, 30, 20, 40]);
    assert_eq!(flat.len(), indices.len());
    for k in 0..indices.len() {
        assert_eq!(flat[k], pool[indices[k] as usize]);
    }
    assert_eq!(RenderData::expand_vertex_buffer_by_indices(&indices, &pool), Ok(flat));
}

#[test]
fn no_indices_expand_to_nothing() {
    assert_eq!(GLTF::expand_by_indices(&vec![], &vec![1u8, 2]), Ok(vec![]));
    assert_eq!(GLTF::expand_by_indices(&vec![], &Vec::<u8>::new()), Ok(vec![]));
}

#[test]
fn an_index_past_the_pool_is_out_of_range() {
    assert_eq!(
        GLTF::expand_by_indices(&vec![0, 1, 2], &vec![7u8, 8]),
        Err(StructuralError::IndexOutOfRange)
    );
    assert_eq!(
        GLTF::expand_by_indices(&vec![0], &Vec::<u8>::new()),
        Err(StructuralError::IndexOutOfRange)
    );
    assert_eq!(
        RenderData::expand_vertex_buffer_by_indices(&vec![65535], &vec![7u8, 8]),
        Err(StructuralError::IndexOutOfRange)
    );
}

#[test]
fn the_corners_of_a_triangle_share_one_normal_bit_for_bit() {
    let positions = vec![
        v3(0.0, 0.0, 0.0), v3(1.0, 0.0, 0.0), v3(0.0, 1.0, 0.0),
        v3(0.3, -2.0, 5.5), v3(1.25, 0.1, 0.7), v3(-4.0, 1.0, 9.0),
        v3(0.0, 0.0, 0.0), v3(0.0, 0.0, 0.0), v3(0.0, 0.0, 0.0),
    ];
    let normals = GLTF::calculate_vertex_normals(&positions, &face_normal).unwrap();
    assert_eq!(normals.len(), positions.len());
    for t in 0..3 {
        assert_eq!(normals[3 * t], normals[3 * t + 1]);
        assert_eq!(normals[3 * t], normals[3 * t + 2]);
        assert_eq!(normals[3 * t], face_normal(positions[3 * t], positions[3 * t + 1], positions[3 * t + 2]));
    }
    assert_ne!(normals[0], normals[3]);
    assert!(f32::from_bits(normals[6].x).is_nan());
}

#[test]
fn a_derived_normal_is_a_unit_vector_across_both_edges() {
    let positions = vec![v3(0.3, -2.0, 5.5), v3(1.25, 0.1, 0.7), v3(-4.0, 1.0, 9.0)];
    let normals = RenderData::calculate_vertex_normals(&positions, &face_normal).unwrap();
    let n = floats(normals[0]);
    let (p0, p1, p2) = (floats(positions[0]), floats(positions[1]), floats(positions[2]));
    let dot1 = n[0] * (p1[0] - p0[0]) + n[1] * (p1[1] - p0[1]) + n[2] * (p1[2] - p0[2]);
    let dot2 = n[0] * (p2[0] - p0[0]) + n[1] * (p2[1] - p0[1]) + n[2] * (p2[2] - p0[2]);
    let length = (n[0] * n[0] + n[1] * n[1] + n[2] * n[2]).sqrt();
    assert!(dot1.abs() < 1e-5);
    assert!(dot2.abs() < 1e-5);
    assert!((length - 1.0).abs() < 1e-6);
}

#[test]
fn positions_that_are_not_whole_triangles_are_invalid() {
    let positions = vec![v3(0.0, 0.0, 0.0), v3(1.0, 0.0, 0.0)];
    assert_eq!(
        GLTF::calculate_vertex_normals(&positions, &face_normal),
        Err(StructuralError::InvalidTopology)
    );
    assert_eq!(
        RenderData::calculate_vertex_normals(&positions[..1].to_vec(), &face_normal),
        Err(StructuralError::InvalidTopology)
    );
    assert_eq!(GLTF::calculate_vertex_normals(&vec![], &face_normal), Ok(vec![]));
}

#[test]
fn an_index_list_that_is_not_whole_triangles_fails_the_render_data() {
    let mut bytes = triangle_bytes();
    bytes.extend_from_slice(&[1, 0]);
    let mut file = triangle_file();
    file.buffers[0].uri = data_uri(&bytes);
    file.buffer_views[1].byte_length = 8;
    let model = parse_model(&file).unwrap();
    assert_eq!(model.meshes[0].indices, vec![0, 1, 2, 1]);
    assert_eq!(
        RenderData::from_model(&model, &face_normal).err(),
        Some(StructuralError::InvalidTopology)
    );
}

#[test]
fn an_index_past_the_positions_fails_the_render_data() {
    let mut bytes = triangle_bytes();
    bytes[40] = 3;
    let mut file = triangle_file();
    file.buffers[0].uri = data_uri(&bytes);
    let model = parse_model(&file).unwrap();
    assert_eq!(model.meshes[0].indices, vec![0, 1, 3]);
    assert_eq!(
        RenderData::from_model(&model, &face_normal).err(),
        Some(StructuralError::IndexOutOfRange)
    );
}

#[test]
fn render_data_keeps_node_order_children_and_transform() {
    let mut file = triangle_file();
    file.nodes = vec![node(0, vec![1]), node(0, vec![])];
    file.nodes[1].translation = [1.0f32.to_bits(), 0, 0];
    let model = parse_model(&file).unwrap();
    let data = RenderData::from_model(&model, &face_normal).unwrap();
    assert_eq!(data.renderable_mesh_data.len(), 2);
    assert_eq!(data.renderable_mesh_data[0].children, vec![1]);
    assert_eq!(data.renderable_mesh_data[1].children, Vec::<u16>::new());
    assert_eq!(data.renderable_mesh_data[1].translation, v3(1.0, 0.0, 0.0));
    assert_eq!(data.renderable_mesh_data[1].scale, v3(1.0, 1.0, 1.0));
    assert_eq!(data.renderable_mesh_data[1].rotation, Quaternion::from_array(&file.nodes[1].rotation));
    for mesh in &data.renderable_mesh_data {
        assert_eq!(mesh.vertex_positions.len(), mesh.vertex_normals.len());
        assert_eq!(mesh.vertex_positions.len() % 3, 0);
    }
}

#[test]
fn default_assets_are_empty_and_all_zero() {
    let material = MeshMaterial::default();
    assert_eq!(material.diffuse_color, Vector3::zero());
    assert_eq!(material.ambient_color, Vector3::zero());
    assert_eq!(material.specular_color, Vector3::zero());
    assert_eq!(material.shininess_factor, 0);

    let mesh = ResolvedMesh::default();
    assert_eq!(mesh.name, "");
    assert!(mesh.children.is_empty());
    assert!(mesh.vertex_positions.is_empty());
    assert!(mesh.indices.is_empty());
    assert_eq!(mesh.translation, Vector3::zero());
    assert_eq!(mesh.scale, Vector3::zero());
    assert_eq!(mesh.rotation, Quaternion::new(0, 0, 0, 0));
    assert_eq!(mesh.material, material);

    assert!(Model::default().meshes.is_empty());

    let extras = Extra::default();
    assert_eq!(extras.diffuse, [0; 3]);
    assert_eq!(extras.specular, [0; 3]);
    assert_eq!(extras.ambient, [0; 3]);
    assert_eq!(extras.shininess_factor, 0);
}

#[test]
fn the_first_failing_node_is_found_with_its_failure() {
    let mut file = triangle_file();
    assert_eq!(first_failure(&file), None);
    file.meshes.push(Mesh { name: "empty".to_string(), primitives: vec![] });
    file.nodes = vec![node(0, vec![]), node(1, vec![]), node(9, vec![])];
    assert_eq!(first_failure(&file), Some((1, StructuralError::UnsupportedPrimitiveCount)));
    file.nodes = vec![node(9, vec![]), node(1, vec![]), node(0, vec![])];
    assert_eq!(first_failure(&file), Some((0, StructuralError::IndexOutOfRange)));
    file.nodes.clear();
    assert_eq!(first_failure(&file), None);
}
