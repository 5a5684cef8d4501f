//! The document model: nodes, meshes, materials, accessors, buffer views and
//! buffers, cross-referenced by plain indices, and the decoding of a buffer's
//! embedded payload.
use vstd::prelude::*;
use vstd::slice::slice_subrange;
use vstd::string::StringSliceAdditionalSpecFns;
use vstd::utf8::encode_utf8;
use crate::error::{viewed, StructuralError};

verus! {

/// A whole document.
#[derive(Debug)]
pub struct File {
    pub nodes: Vec<Node>,
    pub materials: Vec<Material>,
    pub meshes: Vec<Mesh>,
    pub accessors: Vec<Accessor>,
    pub buffer_views: Vec<BufferView>,
    pub buffers: Vec<Buffer>,
}

/// One entry of the scene hierarchy.  `translation` and `scale` are written
/// `[x, y, z]`, `rotation` is a quaternion written `[x, y, z, w]`.
#[derive(Debug)]
pub struct Node {
    pub children: Vec<i32>,
    pub mesh: i32,
    pub name: String,
    pub translation: [u32; 3],
    pub scale: [u32; 3],
    pub rotation: [u32; 4],
}

#[derive(Debug)]
pub struct Material {
    pub name: String,
    pub extras: Extra,
}

#[derive(Debug)]
pub struct Mesh {
    pub name: String,
    pub primitives: Vec<Primitive>,
}

/// One drawable set of attributes.  `material` is a material index, or -1
/// for none.
#[derive(Debug)]
pub struct Primitive {
    pub attributes: Attribute,
    pub indices: u32,
    pub material: i32,
}

/// Accessor indices of the vertex attributes, each -1 where the attribute is
/// absent.
#[derive(Debug)]
pub struct Attribute {
    pub position: i32,
    pub color_0: i32,
    pub normal: i32,
    pub texcoord_0: i32,
}

/// The value that stands for an absent attribute or material.
pub fn default_attribute_value() -> (value: i32)
    ensures
        value == -1,
{
    -1
}

/// How to read a buffer view as typed elements.  `component_type` is 5123
/// for unsigned 16-bit integers and 5126 for binary32 values;
/// `element_type` is `SCALAR`, `VEC3` or `VEC4`.
#[derive(Debug)]
pub struct Accessor {
    pub buffer_view: u32,
    pub component_type: u32,
    pub count: u32,
    pub normalized: bool,
    pub element_type: String,
}

/// A contiguous range of one buffer.
#[derive(Debug)]
pub struct BufferView {
    pub buffer: u32,
    pub byte_length: u32,
    pub byte_offset: u32,
}

/// A blob of bytes, embedded in the document as a base64 data URI.
#[derive(Debug)]
pub struct Buffer {
    pub byte_length: u32,
    pub uri: String,
}

/// Shading parameters of a material.
#[derive(Debug)]
pub struct Extra {
    pub diffuse: [u32; 3],
    pub specular: [u32; 3],
    pub ambient: [u32; 3],
    pub shininess_factor: u32,
}

impl Default for Extra {
    /// Every parameter zero.
    fn default() -> (extras: Extra)
        ensures
            extras.diffuse@ == seq![0u32, 0u32, 0u32],
            extras.specular@ == seq![0u32, 0u32, 0u32],
            extras.ambient@ == seq![0u32, 0u32, 0u32],
            extras.shininess_factor == 0,
    {
        let zeros: [u32; 3] = [0, 0, 0];
        assert(zeros@ =~= seq![0u32, 0u32, 0u32]);
        Extra { diffuse: zeros, specular: zeros, ambient: zeros, shininess_factor: 0 }
    }
}

/// The bytes that a base64 text decodes to under the standard alphabet, or
/// `None` where the text is not valid base64.
pub uninterp spec fn base64_decoding(text: Seq<u8>) -> Option<Seq<u8>>;

/// `base64::DecodeError`: why a text is no base64.  Nothing is read from it.
#[verifier::external_type_specification]
#[verifier::external_body]
pub struct ExDecodeError(base64::DecodeError);

/// `base64::decode`: decodes `text` under the standard alphabet.  The result
/// depends on `text` alone.  The outside function panics where rounding the
/// length of `text` up to a multiple of eight overflows.
#[verifier::external_body]
fn base64_decode(text: &[u8]) -> (r: Result<Vec<u8>, base64::DecodeError>)
    requires
        text@.len() + 7 <= usize::MAX,
    ensures
        match r {
            Ok(bytes) => base64_decoding(text@) == Some(bytes@),
            Err(_) => base64_decoding(text@) is None,
        },
{
    base64::decode(text)
}

/// The only scheme under which a buffer may embed its bytes.
pub open spec fn data_uri_scheme() -> Seq<u8> {
    encode_utf8("data:application/octet-stream;base64,"@)
}

/// The scheme is 37 ASCII characters, the last of them its only comma: what
/// follows the scheme in a URI is what follows the URI's first comma.
pub proof fn lemma_data_uri_scheme()
    ensures
        data_uri_scheme().len() == 37,
        data_uri_scheme()[36] == 44,
        forall|i: int| 0 <= i < 36 ==> data_uri_scheme()[i] != 44,
{
    let text = "data:application/octet-stream;base64,";
    reveal_strlit("data:application/octet-stream;base64,");
    assert(text@.len() == 37);
    assert(vstd::utf8::is_ascii_chars(text@));
    vstd::utf8::is_ascii_chars_encode_utf8(text@);
    assert forall|i: int| 0 <= i < 36 implies data_uri_scheme()[i] != 44 by {
        assert(text@[i] as u8 == data_uri_scheme()[i]);
    }
    assert(text@[36] as u8 == data_uri_scheme()[36]);
}

/// What follows the scheme in the bytes of a URI, and `UnsupportedScheme`
/// for a URI that does not start with the scheme.
pub open spec fn data_uri_payload(uri: Seq<u8>) -> Result<Seq<u8>, StructuralError> {
    if data_uri_scheme().is_prefix_of(uri) {
        Ok(uri.skip(data_uri_scheme().len() as int))
    } else {
        Err(StructuralError::UnsupportedScheme)
    }
}

/// What a buffer with the given URI holds: the base64 decoding of the URI's
/// payload, or `MalformedBase64` where the payload is no base64.
pub open spec fn decoded_data_uri(uri: Seq<char>) -> Result<Seq<u8>, StructuralError> {
    match data_uri_payload(encode_utf8(uri)) {
        Err(e) => Err(e),
        Ok(payload) => match base64_decoding(payload) {
            Some(data) => Ok(data),
            None => Err(StructuralError::MalformedBase64),
        },
    }
}

/// Whether `bytes` starts with `prefix`.
pub fn starts_with(bytes: &[u8], prefix: &[u8]) -> (found: bool)
    ensures
        found == prefix@.is_prefix_of(bytes@),
{
    if prefix.len() > bytes.len() {
        return false;
    }
    let mut i: usize = 0;
    while i < prefix.len()
        invariant
            i <= prefix@.len() <= bytes@.len(),
            forall|j: int| 0 <= j < i ==> bytes@[j] == prefix@[j],
        decreases prefix@.len() - i,
    {
        if bytes[i] != prefix[i] {
            assert(bytes@.subrange(0, prefix@.len() as int)[i as int] != prefix@[i as int]);
            return false;
        }
        i = i + 1;
    }
    assert(prefix@ =~= bytes@.subrange(0, prefix@.len() as int));
    true
}

/// The payload of a data URI: the bytes after the scheme.
pub fn payload_of(uri: &[u8]) -> (r: Result<&[u8], StructuralError>)
    ensures
        viewed(r) == data_uri_payload(uri@),
        r matches Ok(payload) ==> payload@.len() + 37 == uri@.len() <= usize::MAX,
{
    let scheme = "data:application/octet-stream;base64,".as_bytes();
    if !starts_with(uri, scheme) {
        return Err(StructuralError::UnsupportedScheme);
    }
    proof {
        lemma_data_uri_scheme();
    }
    Ok(slice_subrange(uri, scheme.len(), uri.len()))
}

/// The bytes of a decoded payload; a payload that could not be decoded is
/// `MalformedBase64`, whatever was wrong with it.
pub fn decoded_payload(outcome: Result<Vec<u8>, base64::DecodeError>) -> (r: Result<
    Vec<u8>,
    StructuralError,
>)
    ensures
        match outcome {
            Ok(data) => r == Ok::<Vec<u8>, StructuralError>(data),
            Err(_) => r == Err::<Vec<u8>, StructuralError>(StructuralError::MalformedBase64),
        },
{
    match outcome {
        Ok(data) => Ok(data),
        Err(_) => Err(StructuralError::MalformedBase64),
    }
}

impl BufferView {
    /// Where the view lies in a buffer that decoded to `data_len` bytes:
    /// from `byte_offset`, `byte_length` bytes on.  A view that reaches past
    /// the end of the data is `RangeOutOfBounds`.
    pub open spec fn range_in(&self, data_len: nat) -> Result<(int, int), StructuralError> {
        if self.byte_offset + self.byte_length > data_len {
            Err(StructuralError::RangeOutOfBounds)
        } else {
            Ok((self.byte_offset as int, self.byte_offset + self.byte_length))
        }
    }

    /// Where the view lies in a buffer that decoded to `data_len` bytes, as
    /// the first byte and the one after the last.
    pub fn locate_in(&self, data_len: usize) -> (r: Result<(usize, usize), StructuralError>)
        ensures
            match r {
                Ok(range) => self.range_in(data_len as nat) == Ok::<(int, int), StructuralError>(
                    (range.0 as int, range.1 as int),
                ),
                Err(e) => self.range_in(data_len as nat) == Err::<(int, int), StructuralError>(e),
            },
    {
        let end: u64 = self.byte_offset as u64 + self.byte_length as u64;
        if end > data_len as u64 {
            Err(StructuralError::RangeOutOfBounds)
        } else {
            Ok((self.byte_offset as usize, end as usize))
        }
    }
}

impl Buffer {
    /// The bytes that the buffer embeds.
    pub fn get_data(&self) -> (r: Result<Vec<u8>, StructuralError>)
        ensures
            viewed(r) == decoded_data_uri(self.uri@),
    {
        self.decode_base64_data_uri(self.uri.as_str())
    }

    fn decode_base64_data_uri(&self, data_uri: &str) -> (r: Result<Vec<u8>, StructuralError>)
        ensures
            viewed(r) == decoded_data_uri(data_uri@),
    {
        match payload_of(data_uri.as_bytes()) {
            Err(e) => Err(e),
            Ok(payload) => decoded_payload(base64_decode(payload)),
        }
    }
}

/// Two buffers with the same URI hold the same bytes, or fail alike:
/// decoding is a function of the URI, so decoding again changes nothing.
pub proof fn lemma_get_data_repeatable(
    first: Buffer,
    second: Buffer,
    first_data: Result<Seq<u8>, StructuralError>,
    second_data: Result<Seq<u8>, StructuralError>,
)
    requires
        first.uri@ == second.uri@,
        first_data == decoded_data_uri(first.uri@),
        second_data == decoded_data_uri(second.uri@),
    ensures
        first_data == second_data,
{
}

} // verus!
