//! Little-endian decoding of fixed-width elements from raw bytes.
use vstd::prelude::*;
use vstd::slice::slice_subrange;
use byteorder::{ByteOrder, LittleEndian};
use crate::beagle_math::Vector3;
use crate::error::{viewed, StructuralError};
use crate::gltf::BinaryDecode;

verus! {

/// The unsigned 16-bit value whose little-endian encoding is the first two
/// bytes of `bytes`.
pub open spec fn le_u16(bytes: Seq<u8>) -> int
    recommends
        bytes.len() >= 2,
{
    bytes[0] as int + 256 * (bytes[1] as int)
}

/// The unsigned 32-bit value whose little-endian encoding is the first four
/// bytes of `bytes`.
pub open spec fn le_u32(bytes: Seq<u8>) -> int
    recommends
        bytes.len() >= 4,
{
    bytes[0] as int + 256 * (bytes[1] as int) + 65536 * (bytes[2] as int) + 16777216 * (
    bytes[3] as int)
}

/// `byteorder::LittleEndian::read_u16`: the first two bytes of `buf` read as
/// a little-endian integer.  The outside function panics on a shorter slice.
#[verifier::external_body]
pub(crate) fn read_u16_le(buf: &[u8]) -> (value: u16)
    requires
        buf@.len() >= 2,
    ensures
        value as int == le_u16(buf@),
{
    LittleEndian::read_u16(buf)
}

/// `byteorder::LittleEndian::read_u32`: the first four bytes of `buf` read as
/// a little-endian integer.  The outside function panics on a shorter slice.
#[verifier::external_body]
pub(crate) fn read_u32_le(buf: &[u8]) -> (value: u32)
    requires
        buf@.len() >= 4,
    ensures
        value as int == le_u32(buf@),
{
    LittleEndian::read_u32(buf)
}

/// The bytes of element `index` in a run of elements of `width` bytes each.
pub open spec fn element_bytes(bytes: Seq<u8>, width: nat, index: int) -> Seq<u8> {
    bytes.subrange(index * width, index * width + width)
}

/// A value that can be decoded, checked, from a run of little-endian
/// encodings of its kind.
pub trait FromBinary: BinaryDecode {
    /// Decodes the first value of a non-empty, whole run of values; any
    /// other length is `MisalignedBuffer`.
    fn from_binary(binary: &[u8]) -> (r: Result<Self, StructuralError>)
        ensures
            r == decoded_first::<Self>(binary@),
    ;

    /// Decodes a whole run of values, in order; a run that ends in a partial
    /// value is `MisalignedBuffer`.
    fn from_binary_collection(binary: &[u8]) -> (r: Result<Vec<Self>, StructuralError>)
        ensures
            viewed(r) == decoded_run::<Self>(binary@),
    ;
}

/// What `from_binary` returns: the first element of a run of one or more
/// whole elements, and `MisalignedBuffer` for any other length.
pub open spec fn decoded_first<T: BinaryDecode>(bytes: Seq<u8>) -> Result<T, StructuralError> {
    if bytes.len() > 0 && bytes.len() % T::width() == 0 {
        Ok(T::decoded(element_bytes(bytes, T::width(), 0)))
    } else {
        Err(StructuralError::MisalignedBuffer)
    }
}

/// What `from_binary_collection` returns: every element of a run of whole
/// elements, in order, and `MisalignedBuffer` if a partial element is left.
pub open spec fn decoded_run<T: BinaryDecode>(bytes: Seq<u8>) -> Result<Seq<T>, StructuralError> {
    if bytes.len() % T::width() == 0 {
        Ok(
            Seq::new(
                bytes.len() / T::width(),
                |i: int| T::decoded(element_bytes(bytes, T::width(), i)),
            ),
        )
    } else {
        Err(StructuralError::MisalignedBuffer)
    }
}

/// In a run of `len` bytes made of whole elements, the element that starts
/// at `offset` ends within the run, and is element number `count`.
pub proof fn lemma_next_element(len: nat, width: nat, count: nat, offset: nat)
    requires
        width > 0,
        len % width == 0,
        offset == count * width,
        offset < len,
    ensures
        offset + width <= len,
        count < len / width,
        (count + 1) * width == offset + width,
{
    vstd::arithmetic::div_mod::lemma_fundamental_div_mod(len as int, width as int);
    let q = len / width;
    assert(len == width * q);
    assert(count < q) by (nonlinear_arith)
        requires
            count * width < width * q,
            width > 0,
    ;
    assert((count + 1) * width <= width * q) by (nonlinear_arith)
        requires
            count < q,
            width > 0,
    ;
    assert((count + 1) * width == count * width + width) by (nonlinear_arith);
}

/// In a run of `len` bytes made of whole elements, `count` elements that
/// reach the end are all of them.
pub proof fn lemma_all_elements(len: nat, width: nat, count: nat)
    requires
        width > 0,
        len == count * width,
    ensures
        len / width == count,
        len % width == 0,
{
    vstd::arithmetic::div_mod::lemma_fundamental_div_mod_converse(
        len as int,
        width as int,
        count as int,
        0,
    );
}

/// Decodes every element of `binary`, in order.
pub fn decode_elements<T: BinaryDecode>(binary: &[u8]) -> (r: Result<Vec<T>, StructuralError>)
    ensures
        viewed(r) == decoded_run::<T>(binary@),
{
    proof {
        T::lemma_width_positive();
    }
    let width = T::size();
    let len = binary.len();
    if len % width != 0 {
        return Err(StructuralError::MisalignedBuffer);
    }
    let mut values: Vec<T> = Vec::new();
    let mut offset: usize = 0;
    while offset < len
        invariant
            width == T::width(),
            width > 0,
            len == binary@.len(),
            len % width == 0,
            offset <= len,
            offset == values@.len() * width,
            forall|i: int|
                0 <= i < values@.len() ==> values@[i] == T::decoded(
                    element_bytes(binary@, width as nat, i),
                ),
        decreases len - offset,
    {
        proof {
            lemma_next_element(len as nat, width as nat, values@.len(), offset as nat);
        }
        let chunk = slice_subrange(binary, offset, offset + width);
        assert(chunk@ == element_bytes(binary@, width as nat, values@.len() as int));
        assert(chunk@.subrange(0, width as int) == chunk@);
        values.push(T::decode_binary(chunk));
        offset = offset + width;
    }
    proof {
        lemma_all_elements(len as nat, width as nat, values@.len());
        assert(values@ =~= Seq::new(
            binary@.len() / T::width(),
            |i: int| T::decoded(element_bytes(binary@, T::width(), i)),
        ));
    }
    Ok(values)
}

/// Decodes the first element of a non-empty run of whole elements.
pub fn decode_first<T: BinaryDecode>(binary: &[u8]) -> (r: Result<T, StructuralError>)
    ensures
        r == decoded_first::<T>(binary@),
{
    proof {
        T::lemma_width_positive();
    }
    let width = T::size();
    let len = binary.len();
    if len == 0 || len % width != 0 {
        return Err(StructuralError::MisalignedBuffer);
    }
    proof {
        lemma_next_element(len as nat, width as nat, 0, 0);
    }
    Ok(T::decode_binary(binary))
}

impl FromBinary for u16 {
    fn from_binary(binary: &[u8]) -> (r: Result<u16, StructuralError>) {
        decode_first::<u16>(binary)
    }

    fn from_binary_collection(binary: &[u8]) -> (r: Result<Vec<u16>, StructuralError>) {
        decode_elements::<u16>(binary)
    }
}

impl FromBinary for u32 {
    fn from_binary(binary: &[u8]) -> (r: Result<u32, StructuralError>) {
        decode_first::<u32>(binary)
    }

    fn from_binary_collection(binary: &[u8]) -> (r: Result<Vec<u32>, StructuralError>) {
        decode_elements::<u32>(binary)
    }
}

impl FromBinary for Vector3 {
    fn from_binary(binary: &[u8]) -> (r: Result<Vector3, StructuralError>) {
        decode_first::<Vector3>(binary)
    }

    fn from_binary_collection(binary: &[u8]) -> (r: Result<Vec<Vector3>, StructuralError>) {
        decode_elements::<Vector3>(binary)
    }
}

} // verus!
