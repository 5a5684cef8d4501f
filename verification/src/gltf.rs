//! Typed access to the binary payload of a document: buffers, buffer views
//! and accessors, and the decoders that turn their bytes into elements.
use vstd::prelude::*;
use vstd::slice::{slice_subrange, slice_to_vec};
use crate::beagle_math::Vector3;
use vstd::string::StringExecFns;
use crate::error::{collect, deeply_viewed, lemma_collect_failure_persists, viewed, StructuralError};
use crate::gltf2::{decoded_data_uri, Accessor, Buffer, BufferView, File, Mesh, Primitive};
use crate::shared::{
    decode_elements, decoded_run, element_bytes, le_u16, le_u32, lemma_all_elements, read_u16_le,
    read_u32_le,
};

verus! {

/// A value with a fixed-width little-endian encoding.
pub trait BinaryDecode: Sized {
    /// The number of bytes that one value occupies.
    spec fn width() -> nat;

    /// The value that the first `width()` bytes of `bytes` encode.
    spec fn decoded(bytes: Seq<u8>) -> Self;

    proof fn lemma_width_positive()
        ensures
            Self::width() > 0,
    ;

    /// The number of bytes that one value occupies.
    fn size() -> (size: usize)
        ensures
            size == Self::width(),
    ;

    /// Decodes the value at the start of `bytes`.
    fn decode_binary(bytes: &[u8]) -> (value: Self)
        requires
            bytes@.len() >= Self::width(),
        ensures
            value == Self::decoded(bytes@.subrange(0, Self::width() as int)),
    ;
}

impl BinaryDecode for u16 {
    open spec fn width() -> nat {
        2
    }

    open spec fn decoded(bytes: Seq<u8>) -> u16 {
        le_u16(bytes) as u16
    }

    proof fn lemma_width_positive() {
    }

    fn size() -> (size: usize) {
        2
    }

    fn decode_binary(bytes: &[u8]) -> (value: u16) {
        read_u16_le(bytes)
    }
}

impl BinaryDecode for u32 {
    open spec fn width() -> nat {
        4
    }

    open spec fn decoded(bytes: Seq<u8>) -> u32 {
        le_u32(bytes) as u32
    }

    proof fn lemma_width_positive() {
    }

    fn size() -> (size: usize) {
        4
    }

    fn decode_binary(bytes: &[u8]) -> (value: u32) {
        read_u32_le(bytes)
    }
}

/// Three consecutive binary32 values: `x`, `y`, `z`.
impl BinaryDecode for Vector3 {
    open spec fn width() -> nat {
        12
    }

    open spec fn decoded(bytes: Seq<u8>) -> Vector3 {
        Vector3 {
            x: le_u32(bytes.subrange(0, 4)) as u32,
            y: le_u32(bytes.subrange(4, 8)) as u32,
            z: le_u32(bytes.subrange(8, 12)) as u32,
        }
    }

    proof fn lemma_width_positive() {
    }

    fn size() -> (size: usize) {
        12
    }

    fn decode_binary(bytes: &[u8]) -> (value: Vector3) {
        let x = read_u32_le(slice_subrange(bytes, 0, 4));
        let y = read_u32_le(slice_subrange(bytes, 4, 8));
        let z = read_u32_le(slice_subrange(bytes, 8, 12));
        assert(bytes@.subrange(0, 12).subrange(0, 4) == bytes@.subrange(0, 4));
        assert(bytes@.subrange(0, 12).subrange(4, 8) == bytes@.subrange(4, 8));
        assert(bytes@.subrange(0, 12).subrange(8, 12) == bytes@.subrange(8, 12));
        Vector3::new(x, y, z)
    }
}

/// The shape of one element of an accessor.
#[derive(Debug, Clone, Copy, PartialEq, Eq, Structural)]
pub enum BufferComponent {
    Vec3,
    Vec4,
    Scalar,
}

/// The type of one component of an element.
#[derive(Debug, Clone, Copy, PartialEq, Eq, Structural)]
pub enum BufferComponentType {
    Float32,
    UnsignedShort,
    UnsignedShortNormalized,
}

/// The shape that an accessor's `type` names, if it is one of the three
/// supported.
pub open spec fn element_kind(element_type: Seq<char>) -> Option<BufferComponent> {
    if element_type == "VEC3"@ {
        Some(BufferComponent::Vec3)
    } else if element_type == "VEC4"@ {
        Some(BufferComponent::Vec4)
    } else if element_type == "SCALAR"@ {
        Some(BufferComponent::Scalar)
    } else {
        None
    }
}

/// The component type that a numeric code and the normalized flag name:
/// 5123 is an unsigned 16-bit integer, 5126 a binary32 value.
pub open spec fn component_kind(component_type: u32, normalized: bool) -> Option<
    BufferComponentType,
> {
    if component_type == 5123 {
        if normalized {
            Some(BufferComponentType::UnsignedShortNormalized)
        } else {
            Some(BufferComponentType::UnsignedShort)
        }
    } else if component_type == 5126 {
        Some(BufferComponentType::Float32)
    } else {
        None
    }
}

/// The bytes that accessor `index` covers: the range of its buffer view
/// within the decoded bytes of the view's buffer.
pub open spec fn accessor_bytes(
    accessors: Seq<Accessor>,
    buffer_views: Seq<BufferView>,
    buffers: Seq<Buffer>,
    index: int,
) -> Result<Seq<u8>, StructuralError> {
    if !(0 <= index < accessors.len()) {
        Err(StructuralError::IndexOutOfRange)
    } else if accessors[index].buffer_view >= buffer_views.len() {
        Err(StructuralError::IndexOutOfRange)
    } else {
        let view = buffer_views[accessors[index].buffer_view as int];
        if view.buffer >= buffers.len() {
            Err(StructuralError::IndexOutOfRange)
        } else {
            match decoded_data_uri(buffers[view.buffer as int].uri@) {
                Err(e) => Err(e),
                Ok(data) => match view.range_in(data.len()) {
                    Err(e) => Err(e),
                    Ok(range) => Ok(data.subrange(range.0, range.1)),
                },
            }
        }
    }
}

/// The decoded bytes of the buffers of one document, each decoded when it is
/// first asked for and kept from then on.
pub struct BufferCache {
    slots: Vec<Option<Vec<u8>>>,
}

impl View for BufferCache {
    type V = Seq<Option<Seq<u8>>>;

    closed spec fn view(&self) -> Seq<Option<Seq<u8>>> {
        Seq::new(
            self.slots@.len(),
            |i: int|
                match self.slots@[i] {
                    Some(data) => Some(data@),
                    None => None,
                },
        )
    }
}

/// Where the bytes of an accessor lie: in buffer `buffer`, from `start` up to
/// `end`.
#[derive(Debug, Clone, Copy, PartialEq, Eq, Structural)]
pub struct ByteRange {
    pub buffer: usize,
    pub start: usize,
    pub end: usize,
}

impl BufferCache {
    /// The cache belongs to `buffers`: it has one slot for each, and a filled
    /// slot holds exactly what its buffer decodes to.
    pub open spec fn matches(&self, buffers: Seq<Buffer>) -> bool {
        &&& self@.len() == buffers.len()
        &&& forall|i: int|
            0 <= i < buffers.len() ==> (#[trigger] self@[i] matches Some(data) ==> decoded_data_uri(
                buffers[i].uri@,
            ) == Ok::<Seq<u8>, StructuralError>(data))
    }

    /// An empty cache for `buffers`.
    pub fn new(buffers: &Vec<Buffer>) -> (cache: BufferCache)
        ensures
            cache.matches(buffers@),
            forall|i: int| 0 <= i < buffers@.len() ==> cache@[i] is None,
    {
        let mut slots: Vec<Option<Vec<u8>>> = Vec::new();
        let mut i: usize = 0;
        while i < buffers.len()
            invariant
                i <= buffers@.len(),
                slots@.len() == i,
                forall|j: int| 0 <= j < i ==> slots@[j] is None,
            decreases buffers@.len() - i,
        {
            slots.push(None);
            i = i + 1;
        }
        BufferCache { slots }
    }

    /// Makes sure that buffer `index` is decoded.  A buffer that fails to
    /// decode leaves the cache as it was.
    pub fn load(&mut self, buffers: &Vec<Buffer>, index: usize) -> (r: Result<
        (),
        StructuralError,
    >)
        requires
            old(self).matches(buffers@),
            index < buffers@.len(),
        ensures
            final(self).matches(buffers@),
            forall|i: int|
                0 <= i < buffers@.len() && i != index ==> final(self)@[i] == old(self)@[i],
            match r {
                Ok(_) => decoded_data_uri(buffers@[index as int].uri@) == Ok::<
                    Seq<u8>,
                    StructuralError,
                >(final(self)@[index as int]->Some_0) && final(self)@[index as int] is Some,
                Err(e) => decoded_data_uri(buffers@[index as int].uri@) == Err::<
                    Seq<u8>,
                    StructuralError,
                >(e) && final(self)@ == old(self)@,
            },
    {
        if self.slots[index].is_some() {
            assert(self@[index as int] is Some);
            return Ok(());
        }
        match buffers[index].get_data() {
            Ok(data) => {
                let ghost before = self@;
                self.slots.set(index, Some(data));
                assert(forall|i: int|
                    0 <= i < buffers@.len() && i != index ==> self@[i] == before[i]);
                assert(self@[index as int] == Some(data@));
                assert forall|i: int| 0 <= i < buffers@.len() implies (
                #[trigger] self@[i] matches Some(bytes) ==> decoded_data_uri(buffers@[i].uri@)
                    == Ok::<Seq<u8>, StructuralError>(bytes)) by {
                    if i != index {
                        assert(self@[i] == before[i]);
                    }
                }
                Ok(())
            },
            Err(e) => Err(e),
        }
    }

    /// The decoded bytes of buffer `index`, once loaded.
    pub fn data(&self, index: usize) -> (data: &Vec<u8>)
        requires
            index < self@.len(),
            self@[index as int] is Some,
        ensures
            Some(data@) == self@[index as int],
    {
        self.slots[index].as_ref().unwrap()
    }

    /// Finds the bytes of accessor `index`, decoding its buffer if that has
    /// not been done yet.
    pub fn locate(
        &mut self,
        accessors: &Vec<Accessor>,
        buffer_views: &Vec<BufferView>,
        buffers: &Vec<Buffer>,
        index: usize,
    ) -> (r: Result<ByteRange, StructuralError>)
        requires
            old(self).matches(buffers@),
        ensures
            final(self).matches(buffers@),
            match r {
                Ok(range) => {
                    &&& range.buffer < buffers@.len()
                    &&& final(self)@[range.buffer as int] matches Some(data)
                    &&& range.start <= range.end <= data.len()
                    &&& accessor_bytes(accessors@, buffer_views@, buffers@, index as int) == Ok::<
                        Seq<u8>,
                        StructuralError,
                    >(data.subrange(range.start as int, range.end as int))
                },
                Err(e) => accessor_bytes(accessors@, buffer_views@, buffers@, index as int) == Err::<
                    Seq<u8>,
                    StructuralError,
                >(e),
            },
    {
        if index >= accessors.len() {
            return Err(StructuralError::IndexOutOfRange);
        }
        let view_index = accessors[index].buffer_view as usize;
        if view_index >= buffer_views.len() {
            return Err(StructuralError::IndexOutOfRange);
        }
        let view = &buffer_views[view_index];
        let buffer_index = view.buffer as usize;
        if buffer_index >= buffers.len() {
            return Err(StructuralError::IndexOutOfRange);
        }
        match self.load(buffers, buffer_index) {
            Err(e) => Err(e),
            Ok(_) => {
                match view.locate_in(self.data(buffer_index).len()) {
                    Err(e) => Err(e),
                    Ok(range) => Ok(
                        ByteRange { buffer: buffer_index, start: range.0, end: range.1 },
                    ),
                }
            },
        }
    }

    /// The bytes of a range that `locate` found.
    pub fn bytes(&self, range: &ByteRange) -> (bytes: &[u8])
        requires
            range.buffer < self@.len(),
            self@[range.buffer as int] matches Some(data) && range.start <= range.end <= data.len(),
        ensures
            bytes@ == self@[range.buffer as int]->Some_0.subrange(
                range.start as int,
                range.end as int,
            ),
    {
        slice_subrange(self.data(range.buffer).as_slice(), range.start, range.end)
    }
}

/// The bytes of one accessor together with what the accessor says of them.
#[derive(Debug)]
pub struct LoadedBuffer {
    pub element_count: u32,
    pub buffer_data: Vec<u8>,
    pub buffer_component: BufferComponent,
    pub buffer_component_type: BufferComponentType,
}

pub struct LoadedBufferView {
    pub element_count: u32,
    pub buffer_data: Seq<u8>,
    pub buffer_component: BufferComponent,
    pub buffer_component_type: BufferComponentType,
}

impl DeepView for LoadedBuffer {
    type V = LoadedBufferView;

    open spec fn deep_view(&self) -> LoadedBufferView {
        LoadedBufferView {
            element_count: self.element_count,
            buffer_data: self.buffer_data@,
            buffer_component: self.buffer_component,
            buffer_component_type: self.buffer_component_type,
        }
    }
}

/// The attributes of one primitive, each with its bytes.
#[derive(Debug)]
pub struct LoadedPrimitive {
    pub vertex_indices: LoadedBuffer,
    pub vertex_positions: LoadedBuffer,
    pub vertex_colors: Option<LoadedBuffer>,
    pub vertex_normals: Option<LoadedBuffer>,
}

pub struct LoadedPrimitiveView {
    pub vertex_indices: LoadedBufferView,
    pub vertex_positions: LoadedBufferView,
    pub vertex_colors: Option<LoadedBufferView>,
    pub vertex_normals: Option<LoadedBufferView>,
}

impl DeepView for LoadedPrimitive {
    type V = LoadedPrimitiveView;

    open spec fn deep_view(&self) -> LoadedPrimitiveView {
        LoadedPrimitiveView {
            vertex_indices: self.vertex_indices.deep_view(),
            vertex_positions: self.vertex_positions.deep_view(),
            vertex_colors: self.vertex_colors.deep_view(),
            vertex_normals: self.vertex_normals.deep_view(),
        }
    }
}

#[derive(Debug)]
pub struct LoadedMesh {
    pub loaded_primitives: Vec<LoadedPrimitive>,
}

impl DeepView for LoadedMesh {
    type V = Seq<LoadedPrimitiveView>;

    open spec fn deep_view(&self) -> Seq<LoadedPrimitiveView> {
        self.loaded_primitives.deep_view()
    }
}

/// Corner `k` of triangle `triangle` in a flat list of triangle corners.
pub open spec fn corner(corners: Seq<Vector3>, triangle: int, k: int) -> Vector3 {
    corners[3 * triangle + k]
}

/// `normals` is a flat shading of the triangles in `positions`: each
/// triangle got one normal from `face_normal`, and all three of its corners
/// carry that same value.
pub open spec fn is_flat_shading<F: Fn(Vector3, Vector3, Vector3) -> Vector3>(
    face_normal: F,
    positions: Seq<Vector3>,
    normals: Seq<Vector3>,
) -> bool {
    &&& normals.len() == positions.len()
    &&& forall|t: int|
        0 <= t < positions.len() / 3 ==> {
            &&& call_ensures(
                face_normal,
                (corner(positions, t, 0), corner(positions, t, 1), corner(positions, t, 2)),
                #[trigger] corner(normals, t, 0),
            )
            &&& corner(normals, t, 1) == corner(normals, t, 0)
            &&& corner(normals, t, 2) == corner(normals, t, 0)
        }
}

/// In a flat shading the three corners of every triangle carry one and the
/// same normal, bit for bit.
pub proof fn lemma_flat_shading_corners_agree<F: Fn(Vector3, Vector3, Vector3) -> Vector3>(
    face_normal: F,
    positions: Seq<Vector3>,
    normals: Seq<Vector3>,
    triangle: int,
)
    requires
        is_flat_shading(face_normal, positions, normals),
        0 <= triangle < positions.len() / 3,
    ensures
        normals[3 * triangle] == normals[3 * triangle + 1],
        normals[3 * triangle + 1] == normals[3 * triangle + 2],
{
    let first = corner(normals, triangle, 0);
    assert(corner(normals, triangle, 1) == first);
    assert(corner(normals, triangle, 2) == first);
}

/// The flat list that `indices` pick out of `pool`, in the order of
/// `indices`: nothing is merged and nothing is moved.  An index that names no
/// entry of `pool` is `IndexOutOfRange`.
pub open spec fn expanded<T>(indices: Seq<u16>, pool: Seq<T>) -> Result<Seq<T>, StructuralError> {
    if forall|k: int| 0 <= k < indices.len() ==> (#[trigger] indices[k]) < pool.len() {
        Ok(Seq::new(indices.len(), |k: int| pool[indices[k] as int]))
    } else {
        Err(StructuralError::IndexOutOfRange)
    }
}

/// Expanding keeps the length and the order of the index list: entry `k` of
/// the flat list is the pool's entry `indices[k]`.
pub proof fn lemma_expansion_follows_indices<T>(indices: Seq<u16>, pool: Seq<T>)
    requires
        forall|k: int| 0 <= k < indices.len() ==> (#[trigger] indices[k]) < pool.len(),
    ensures
        expanded(indices, pool) matches Ok(flat) && flat.len() == indices.len() && forall|k: int|
            0 <= k < indices.len() ==> flat[k] == pool[indices[k] as int],
{
}

/// What `decode_binary_to_vector4` returns: the components of `bytes`, four
/// to a group, in order; `MisalignedBuffer` if a partial group is left.
pub open spec fn decoded_quads<T: BinaryDecode>(bytes: Seq<u8>) -> Result<
    Seq<Seq<T>>,
    StructuralError,
> {
    if bytes.len() % (4 * T::width()) == 0 {
        Ok(
            Seq::new(
                bytes.len() / (4 * T::width()),
                |i: int|
                    Seq::new(
                        4,
                        |k: int| T::decoded(element_bytes(bytes, T::width(), 4 * i + k)),
                    ),
            ),
        )
    } else {
        Err(StructuralError::MisalignedBuffer)
    }
}

/// A run of whole groups of four is a run of whole elements, four times as
/// many.
pub proof fn lemma_quads_are_elements(len: nat, width: nat)
    requires
        width > 0,
        len % (4 * width) == 0,
    ensures
        len % width == 0,
        len / width == 4 * (len / (4 * width)),
{
    vstd::arithmetic::div_mod::lemma_fundamental_div_mod(len as int, 4 * width as int);
    let groups = len / (4 * width);
    assert(len == (4 * groups) * width) by (nonlinear_arith)
        requires
            len == (4 * width) * groups,
    ;
    lemma_all_elements(len, width, 4 * groups);
}

/// The binary payload of a document.
#[derive(Debug)]
pub struct GLTF {
    pub meshes: Vec<Mesh>,
    pub accessors: Vec<Accessor>,
    pub buffer_views: Vec<BufferView>,
    pub buffers: Vec<Buffer>,
}

/// Whether `text` reads exactly `literal`.
fn text_is(text: &String, literal: &str) -> (same: bool)
    ensures
        same == (text@ == literal@),
{
    let other = String::from_str(literal);
    *text == other
}

/// Reads the shape that an accessor's `type` names.
pub fn classify_element(element_type: &String) -> (kind: Option<BufferComponent>)
    ensures
        kind == element_kind(element_type@),
{
    if text_is(element_type, "VEC3") {
        Some(BufferComponent::Vec3)
    } else if text_is(element_type, "VEC4") {
        Some(BufferComponent::Vec4)
    } else if text_is(element_type, "SCALAR") {
        Some(BufferComponent::Scalar)
    } else {
        None
    }
}

/// Reads the component type that a numeric code and the normalized flag name.
pub fn classify_component(component_type: u32, normalized: bool) -> (kind: Option<
    BufferComponentType,
>)
    ensures
        kind == component_kind(component_type, normalized),
{
    if component_type == 5123 {
        if normalized {
            Some(BufferComponentType::UnsignedShortNormalized)
        } else {
            Some(BufferComponentType::UnsignedShort)
        }
    } else if component_type == 5126 {
        Some(BufferComponentType::Float32)
    } else {
        None
    }
}

impl GLTF {
    /// The binary payload of `file`: its meshes, accessors, buffer views and
    /// buffers.
    pub fn from_file(file: File) -> (gltf: GLTF)
        ensures
            gltf.meshes == file.meshes,
            gltf.accessors == file.accessors,
            gltf.buffer_views == file.buffer_views,
            gltf.buffers == file.buffers,
    {
        GLTF {
            meshes: file.meshes,
            accessors: file.accessors,
            buffer_views: file.buffer_views,
            buffers: file.buffers,
        }
    }

    /// One normal per triangle corner: every three consecutive positions are
    /// one triangle, `face_normal` gives the triangle its normal, and each of
    /// its corners gets that value.  A list that is not made of whole
    /// triangles is `InvalidTopology`.
    pub fn calculate_vertex_normals<F: Fn(Vector3, Vector3, Vector3) -> Vector3>(
        vertex_positions: &Vec<Vector3>,
        face_normal: &F,
    ) -> (r: Result<Vec<Vector3>, StructuralError>)
        requires
            forall|t: int|
                0 <= t < vertex_positions@.len() / 3 ==> call_requires(
                    *face_normal,
                    (
                        #[trigger] corner(vertex_positions@, t, 0),
                        corner(vertex_positions@, t, 1),
                        corner(vertex_positions@, t, 2),
                    ),
                ),
        ensures
            vertex_positions@.len() % 3 != 0 ==> r == Err::<Vec<Vector3>, StructuralError>(
                StructuralError::InvalidTopology,
            ),
            vertex_positions@.len() % 3 == 0 ==> r is Ok && is_flat_shading(
                *face_normal,
                vertex_positions@,
                r->Ok_0@,
            ),
    {
        let len = vertex_positions.len();
        if len % 3 != 0 {
            return Err(StructuralError::InvalidTopology);
        }
        let mut vertex_normals: Vec<Vector3> = Vec::new();
        let mut index: usize = 0;
        let ghost mut triangles: int = 0;
        while index < len
            invariant
                len == vertex_positions@.len(),
                len % 3 == 0,
                index <= len,
                index == 3 * triangles,
                vertex_normals@.len() == index,
                forall|t: int|
                    0 <= t < vertex_positions@.len() / 3 ==> call_requires(
                        *face_normal,
                        (
                            #[trigger] corner(vertex_positions@, t, 0),
                            corner(vertex_positions@, t, 1),
                            corner(vertex_positions@, t, 2),
                        ),
                    ),
                forall|t: int|
                    0 <= t < triangles ==> {
                        &&& call_ensures(
                            *face_normal,
                            (
                                corner(vertex_positions@, t, 0),
                                corner(vertex_positions@, t, 1),
                                corner(vertex_positions@, t, 2),
                            ),
                            #[trigger] corner(vertex_normals@, t, 0),
                        )
                        &&& corner(vertex_normals@, t, 1) == corner(vertex_normals@, t, 0)
                        &&& corner(vertex_normals@, t, 2) == corner(vertex_normals@, t, 0)
                    },
            decreases len - index,
        {
            let vert1 = vertex_positions[index];
            let vert2 = vertex_positions[index + 1];
            let vert3 = vertex_positions[index + 2];
            assert(vert1 == corner(vertex_positions@, triangles, 0));
            assert(vert2 == corner(vertex_positions@, triangles, 1));
            assert(vert3 == corner(vertex_positions@, triangles, 2));
            let vertex_normal = face_normal(vert1, vert2, vert3);
            let ghost before = vertex_normals@;
            vertex_normals.push(vertex_normal);
            vertex_normals.push(vertex_normal);
            vertex_normals.push(vertex_normal);
            proof {
                assert forall|t: int| 0 <= t < triangles + 1 implies {
                    &&& call_ensures(
                        *face_normal,
                        (
                            corner(vertex_positions@, t, 0),
                            corner(vertex_positions@, t, 1),
                            corner(vertex_positions@, t, 2),
                        ),
                        #[trigger] corner(vertex_normals@, t, 0),
                    )
                    &&& corner(vertex_normals@, t, 1) == corner(vertex_normals@, t, 0)
                    &&& corner(vertex_normals@, t, 2) == corner(vertex_normals@, t, 0)
                } by {
                    if t < triangles {
                        assert(corner(vertex_normals@, t, 0) == corner(before, t, 0));
                        assert(corner(vertex_normals@, t, 1) == corner(before, t, 1));
                        assert(corner(vertex_normals@, t, 2) == corner(before, t, 2));
                    }
                }
                triangles = triangles + 1;
            }
            index = index + 3;
        }
        Ok(vertex_normals)
    }

    /// Turns a shared pool and an index list into a flat list: entry `k` of
    /// the result is the pool's entry `indices[k]`.
    pub fn expand_by_indices<T: Copy>(indices: &Vec<u16>, buffer_to_expand: &Vec<T>) -> (r: Result<
        Vec<T>,
        StructuralError,
    >)
        ensures
            viewed(r) == expanded(indices@, buffer_to_expand@),
    {
        let mut the_result: Vec<T> = Vec::new();
        let mut k: usize = 0;
        while k < indices.len()
            invariant
                k <= indices@.len(),
                the_result@.len() == k,
                forall|j: int| 0 <= j < k ==> (#[trigger] indices@[j]) < buffer_to_expand@.len(),
                forall|j: int|
                    0 <= j < k ==> the_result@[j] == buffer_to_expand@[indices@[j] as int],
            decreases indices@.len() - k,
        {
            let i = indices[k] as usize;
            if i >= buffer_to_expand.len() {
                return Err(StructuralError::IndexOutOfRange);
            }
            the_result.push(buffer_to_expand[i]);
            k = k + 1;
        }
        assert(the_result@ =~= Seq::new(
            indices@.len(),
            |k: int| buffer_to_expand@[indices@[k] as int],
        ));
        Ok(the_result)
    }

    /// Reads `binary_scalar_data` as consecutive little-endian unsigned
    /// 16-bit integers.
    pub fn decode_binary_to_scalar(binary_scalar_data: &[u8]) -> (r: Result<
        Vec<u16>,
        StructuralError,
    >)
        ensures
            viewed(r) == decoded_run::<u16>(binary_scalar_data@),
    {
        decode_elements::<u16>(binary_scalar_data)
    }

    /// Reads `binary_vector_data` as consecutive groups of three
    /// little-endian binary32 values.
    pub fn decode_binary_to_vector3(binary_vector_data: &[u8]) -> (r: Result<
        Vec<Vector3>,
        StructuralError,
    >)
        ensures
            viewed(r) == decoded_run::<Vector3>(binary_vector_data@),
    {
        decode_elements::<Vector3>(binary_vector_data)
    }

    /// Reads `binary_vector_data` as consecutive groups of four components
    /// of type `T`.  The components are handed out as they are stored:
    /// dividing each by the largest value of `T` gives the normalized vector.
    pub fn decode_binary_to_vector4<T: BinaryDecode + Copy>(binary_vector_data: &[u8]) -> (r:
        Result<Vec<[T; 4]>, StructuralError>)
        ensures
            match r {
                Ok(values) => decoded_quads::<T>(binary_vector_data@) == Ok::<
                    Seq<Seq<T>>,
                    StructuralError,
                >(Seq::new(values@.len(), |i: int| values@[i]@)),
                Err(e) => decoded_quads::<T>(binary_vector_data@) == Err::<
                    Seq<Seq<T>>,
                    StructuralError,
                >(e),
            },
    {
        proof {
            T::lemma_width_positive();
        }
        let size_of_type = T::size();
        let len = binary_vector_data.len();
        if size_of_type > usize::MAX / 4 {
            // A group is longer than any slice: only the empty run is whole.
            if len == 0 {
                proof {
                    assert(0nat % (4 * T::width()) == 0) by (nonlinear_arith)
                        requires
                            T::width() > 0,
                    ;
                    assert(0nat / (4 * T::width()) == 0) by (nonlinear_arith)
                        requires
                            T::width() > 0,
                    ;
                }
                let empty: Vec<[T; 4]> = Vec::new();
                assert(Seq::new(empty@.len(), |i: int| empty@[i]@) =~= Seq::<Seq<T>>::empty());
                assert(decoded_quads::<T>(binary_vector_data@)->Ok_0 =~= Seq::<Seq<T>>::empty());
                return Ok(empty);
            }
            proof {
                vstd::arithmetic::div_mod::lemma_small_mod(len as nat, 4 * T::width());
            }
            return Err(StructuralError::MisalignedBuffer);
        }
        let size_of_vector_in_bytes = size_of_type * 4;
        if len % size_of_vector_in_bytes != 0 {
            return Err(StructuralError::MisalignedBuffer);
        }
        proof {
            lemma_quads_are_elements(len as nat, size_of_type as nat);
        }
        let elements = match decode_elements::<T>(binary_vector_data) {
            Ok(elements) => elements,
            Err(e) => {
                return Err(e);
            },
        };
        let mut result: Vec<[T; 4]> = Vec::new();
        let mut i: usize = 0;
        let count = elements.len();
        let groups = count / 4;
        while i < groups
            invariant
                i <= groups,
                count == elements@.len(),
                count == 4 * groups,
                result@.len() == i,
                forall|j: int|
                    0 <= j < i ==> (#[trigger] result@[j])@ == Seq::new(
                        4,
                        |k: int| elements@[4 * j + k],
                    ),
            decreases groups - i,
        {
            let group: [T; 4] = [
                elements[4 * i],
                elements[4 * i + 1],
                elements[4 * i + 2],
                elements[4 * i + 3],
            ];
            assert(group@ =~= Seq::new(4, |k: int| elements@[4 * i + k]));
            result.push(group);
            i = i + 1;
        }
        proof {
            let quads = decoded_quads::<T>(binary_vector_data@)->Ok_0;
            let views = Seq::new(result@.len(), |i: int| result@[i]@);
            assert(views.len() == quads.len());
            assert forall|j: int| 0 <= j < views.len() implies views[j] == quads[j] by {
                assert(result@[j]@ =~= quads[j]);
            }
            assert(views =~= quads);
        }
        Ok(result)
    }
}

/// What accessor `index` loads as: its bytes, with the shape and component
/// type that it declares.  An index that names no accessor is
/// `IndexOutOfRange`; a shape or component type outside the supported ones is
/// `UnsupportedAccessorType`.
pub open spec fn loaded_buffer(
    accessors: Seq<Accessor>,
    buffer_views: Seq<BufferView>,
    buffers: Seq<Buffer>,
    index: int,
) -> Result<LoadedBufferView, StructuralError> {
    if !(0 <= index < accessors.len()) {
        Err(StructuralError::IndexOutOfRange)
    } else {
        let accessor = accessors[index];
        match (
            element_kind(accessor.element_type@),
            component_kind(accessor.component_type, accessor.normalized),
        ) {
            (Some(buffer_component), Some(buffer_component_type)) => match accessor_bytes(
                accessors,
                buffer_views,
                buffers,
                index,
            ) {
                Err(e) => Err(e),
                Ok(buffer_data) => Ok(
                    LoadedBufferView {
                        element_count: accessor.count,
                        buffer_data,
                        buffer_component,
                        buffer_component_type,
                    },
                ),
            },
            _ => Err(StructuralError::UnsupportedAccessorType),
        }
    }
}

impl GLTF {
    /// What an attribute loads as: nothing where it is absent (-1), else
    /// what its accessor loads as.
    pub open spec fn loaded_attribute(&self, index: int) -> Result<
        Option<LoadedBufferView>,
        StructuralError,
    > {
        if index == -1 {
            Ok(None)
        } else {
            match loaded_buffer(self.accessors@, self.buffer_views@, self.buffers@, index) {
                Err(e) => Err(e),
                Ok(buffer) => Ok(Some(buffer)),
            }
        }
    }

    /// What a primitive loads as.  Its attributes are loaded in the order
    /// positions, indices, colours, normals, and the first failure is the
    /// primitive's.
    pub open spec fn loaded_primitive(&self, primitive: Primitive) -> Result<
        LoadedPrimitiveView,
        StructuralError,
    > {
        match loaded_buffer(
            self.accessors@,
            self.buffer_views@,
            self.buffers@,
            primitive.attributes.position as int,
        ) {
            Err(e) => Err(e),
            Ok(vertex_positions) => match loaded_buffer(
                self.accessors@,
                self.buffer_views@,
                self.buffers@,
                primitive.indices as int,
            ) {
                Err(e) => Err(e),
                Ok(vertex_indices) => match self.loaded_attribute(
                    primitive.attributes.color_0 as int,
                ) {
                    Err(e) => Err(e),
                    Ok(vertex_colors) => match self.loaded_attribute(
                        primitive.attributes.normal as int,
                    ) {
                        Err(e) => Err(e),
                        Ok(vertex_normals) => Ok(
                            LoadedPrimitiveView {
                                vertex_indices,
                                vertex_positions,
                                vertex_colors,
                                vertex_normals,
                            },
                        ),
                    },
                },
            },
        }
    }

    pub open spec fn primitive_loader(&self, mesh: Mesh) -> spec_fn(int) -> Result<
        LoadedPrimitiveView,
        StructuralError,
    > {
        |p: int| self.loaded_primitive(mesh.primitives@[p])
    }

    /// What a mesh loads as: its primitives in order, or the first failure
    /// among them.
    pub open spec fn loaded_mesh(&self, mesh: Mesh) -> Result<
        Seq<LoadedPrimitiveView>,
        StructuralError,
    > {
        collect(mesh.primitives@.len(), self.primitive_loader(mesh))
    }

    pub open spec fn mesh_loader(&self) -> spec_fn(int) -> Result<
        Seq<LoadedPrimitiveView>,
        StructuralError,
    > {
        |m: int| self.loaded_mesh(self.meshes@[m])
    }

    /// What the document loads as: its meshes in order, or the first failure
    /// among them.
    pub open spec fn loaded_meshes(&self) -> Result<Seq<Seq<LoadedPrimitiveView>>, StructuralError> {
        collect(self.meshes@.len(), self.mesh_loader())
    }

    fn load_accessor(&self, cache: &mut BufferCache, index: usize) -> (r: Result<
        LoadedBuffer,
        StructuralError,
    >)
        requires
            old(cache).matches(self.buffers@),
        ensures
            final(cache).matches(self.buffers@),
            deeply_viewed(r) == loaded_buffer(
                self.accessors@,
                self.buffer_views@,
                self.buffers@,
                index as int,
            ),
    {
        if index >= self.accessors.len() {
            return Err(StructuralError::IndexOutOfRange);
        }
        let accessor = &self.accessors[index];
        let buffer_component = match classify_element(&accessor.element_type) {
            Some(kind) => kind,
            None => {
                return Err(StructuralError::UnsupportedAccessorType);
            },
        };
        let buffer_component_type = match classify_component(
            accessor.component_type,
            accessor.normalized,
        ) {
            Some(kind) => kind,
            None => {
                return Err(StructuralError::UnsupportedAccessorType);
            },
        };
        match cache.locate(&self.accessors, &self.buffer_views, &self.buffers, index) {
            Err(e) => Err(e),
            Ok(range) => {
                let buffer_data = slice_to_vec(cache.bytes(&range));
                Ok(
                    LoadedBuffer {
                        element_count: accessor.count,
                        buffer_data,
                        buffer_component,
                        buffer_component_type,
                    },
                )
            },
        }
    }

    /// Loads the accessor that `accessor_index` names.
    pub fn get_buffer_data_for_accessor(&self, cache: &mut BufferCache, accessor_index: i32) -> (r:
        Result<LoadedBuffer, StructuralError>)
        requires
            old(cache).matches(self.buffers@),
        ensures
            final(cache).matches(self.buffers@),
            deeply_viewed(r) == loaded_buffer(
                self.accessors@,
                self.buffer_views@,
                self.buffers@,
                accessor_index as int,
            ),
    {
        if accessor_index < 0 {
            return Err(StructuralError::IndexOutOfRange);
        }
        self.load_accessor(cache, accessor_index as usize)
    }

    fn load_attribute(&self, cache: &mut BufferCache, index: i32) -> (r: Result<
        Option<LoadedBuffer>,
        StructuralError,
    >)
        requires
            old(cache).matches(self.buffers@),
        ensures
            final(cache).matches(self.buffers@),
            deeply_viewed(r) == self.loaded_attribute(index as int),
    {
        if index == -1 {
            return Ok(None);
        }
        match self.get_buffer_data_for_accessor(cache, index) {
            Err(e) => Err(e),
            Ok(buffer) => Ok(Some(buffer)),
        }
    }

    fn load_primitive(&self, cache: &mut BufferCache, primitive: &Primitive) -> (r: Result<
        LoadedPrimitive,
        StructuralError,
    >)
        requires
            old(cache).matches(self.buffers@),
        ensures
            final(cache).matches(self.buffers@),
            deeply_viewed(r) == self.loaded_primitive(*primitive),
    {
        let vertex_positions = match self.get_buffer_data_for_accessor(
            cache,
            primitive.attributes.position,
        ) {
            Ok(buffer) => buffer,
            Err(e) => {
                return Err(e);
            },
        };
        let vertex_indices = match self.load_accessor(cache, primitive.indices as usize) {
            Ok(buffer) => buffer,
            Err(e) => {
                return Err(e);
            },
        };
        let vertex_colors = match self.load_attribute(cache, primitive.attributes.color_0) {
            Ok(buffer) => buffer,
            Err(e) => {
                return Err(e);
            },
        };
        let vertex_normals = match self.load_attribute(cache, primitive.attributes.normal) {
            Ok(buffer) => buffer,
            Err(e) => {
                return Err(e);
            },
        };
        Ok(LoadedPrimitive { vertex_indices, vertex_positions, vertex_colors, vertex_normals })
    }

    fn load_mesh(&self, cache: &mut BufferCache, mesh: &Mesh) -> (r: Result<
        LoadedMesh,
        StructuralError,
    >)
        requires
            old(cache).matches(self.buffers@),
        ensures
            final(cache).matches(self.buffers@),
            deeply_viewed(r) == self.loaded_mesh(*mesh),
    {
        let mut loaded_primitives: Vec<LoadedPrimitive> = Vec::new();
        let mut p: usize = 0;
        assert(loaded_primitives.deep_view() =~= Seq::empty());
        while p < mesh.primitives.len()
            invariant
                p <= mesh.primitives@.len(),
                cache.matches(self.buffers@),
                collect(p as nat, self.primitive_loader(*mesh)) == Ok::<
                    Seq<LoadedPrimitiveView>,
                    StructuralError,
                >(loaded_primitives.deep_view()),
            decreases mesh.primitives@.len() - p,
        {
            match self.load_primitive(cache, &mesh.primitives[p]) {
                Ok(loaded) => {
                    let ghost before = loaded_primitives.deep_view();
                    loaded_primitives.push(loaded);
                    assert(loaded_primitives.deep_view() =~= before.push(loaded.deep_view()));
                },
                Err(e) => {
                    proof {
                        lemma_collect_failure_persists(
                            (p + 1) as nat,
                            mesh.primitives@.len(),
                            self.primitive_loader(*mesh),
                        );
                    }
                    return Err(e);
                },
            }
            p = p + 1;
        }
        Ok(LoadedMesh { loaded_primitives })
    }

    /// Loads every attribute of every primitive of every mesh, in order.
    /// The first accessor that cannot be loaded fails the whole load.
    pub fn load_meshes(&self) -> (r: Result<Vec<LoadedMesh>, StructuralError>)
        ensures
            deeply_viewed(r) == self.loaded_meshes(),
    {
        let mut cache = BufferCache::new(&self.buffers);
        let mut loaded_meshes: Vec<LoadedMesh> = Vec::new();
        let mut m: usize = 0;
        assert(loaded_meshes.deep_view() =~= Seq::empty());
        while m < self.meshes.len()
            invariant
                m <= self.meshes@.len(),
                cache.matches(self.buffers@),
                collect(m as nat, self.mesh_loader()) == Ok::<
                    Seq<Seq<LoadedPrimitiveView>>,
                    StructuralError,
                >(loaded_meshes.deep_view()),
            decreases self.meshes@.len() - m,
        {
            match self.load_mesh(&mut cache, &self.meshes[m]) {
                Ok(loaded) => {
                    let ghost before = loaded_meshes.deep_view();
                    loaded_meshes.push(loaded);
                    assert(loaded_meshes.deep_view() =~= before.push(loaded.deep_view()));
                },
                Err(e) => {
                    proof {
                        lemma_collect_failure_persists(
                            (m + 1) as nat,
                            self.meshes@.len(),
                            self.mesh_loader(),
                        );
                    }
                    return Err(e);
                },
            }
            m = m + 1;
        }
        Ok(loaded_meshes)
    }
}

} // verus!
