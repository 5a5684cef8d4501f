use beagle::beagle_math::Vector3;
use beagle::error::StructuralError;
use beagle::gltf::{BinaryDecode, GLTF};
use beagle::gltf2::Buffer;
use beagle::shared::{decode_elements, decode_first, FromBinary};

fn buffer(uri: &str) -> Buffer {
    Buffer { byte_length: 0, uri: uri.to_string() }
}

fn floats(values: &[f32]) -> Vec<u8> {
    let mut bytes = Vec::new();
    for value in values {
        bytes.extend_from_slice(&value.to_le_bytes());
    }
    bytes
}

#[test]
fn scalars_are_read_low_byte_first() {
    let decoded = GLTF::decode_binary_to_scalar(&[0x01, 0x02, 0xff, 0xff, 0x00, 0x00, 0x34, 0x12]);
    assert_eq!(decoded, Ok(vec![0x0201, 0xffff, 0x0000, 0x1234]));
}

#[test]
fn scalars_of_no_bytes_are_no_scalars() {
    assert_eq!(GLTF::decode_binary_to_scalar(&[]), Ok(vec![]));
}

#[test]
fn scalars_of_odd_length_are_misaligned() {
    assert_eq!(GLTF::decode_binary_to_scalar(&[1, 2, 3]), Err(StructuralError::MisalignedBuffer));
    assert_eq!(GLTF::decode_binary_to_scalar(&[1]), Err(StructuralError::MisalignedBuffer));
}

#[test]
fn vectors_are_three_little_endian_values_each() {
    let bytes = floats(&[0.0, 0.0, 0.0, 1.0, 0.0, 0.0, 0.0, 1.0, 0.0]);
    let decoded = GLTF::decode_binary_to_vector3(&bytes).unwrap();
    assert_eq!(decoded.len(), 3);
    assert_eq!(decoded[0], Vector3::new(0, 0, 0));
    assert_eq!(decoded[1], Vector3::new(0x3F80_0000, 0, 0));
    assert_eq!(decoded[2], Vector3::new(0, 0x3F80_0000, 0));
    assert_eq!(f32::from_bits(decoded[1].x), 1.0);
}

#[test]
fn vectors_keep_every_bit_of_their_components() {
    let bytes = [0x78, 0x56, 0x34, 0x12, 0x00, 0x00, 0xc0, 0x7f, 0x00, 0x00, 0x00, 0x80];
    let decoded = GLTF::decode_binary_to_vector3(&bytes).unwrap();
    assert_eq!(decoded, vec![Vector3::new(0x1234_5678, 0x7fc0_0000, 0x8000_0000)]);
    assert!(f32::from_bits(decoded[0].y).is_nan());
}

#[test]
fn vectors_of_partial_length_are_misaligned() {
    let bytes = floats(&[1.0, 2.0, 3.0, 4.0]);
    assert_eq!(GLTF::decode_binary_to_vector3(&bytes), Err(StructuralError::MisalignedBuffer));
    assert_eq!(GLTF::decode_binary_to_vector3(&bytes[..11]), Err(StructuralError::MisalignedBuffer));
    assert_eq!(GLTF::decode_binary_to_vector3(&bytes[..12]).map(|v| v.len()), Ok(1));
}

#[test]
fn quads_hold_four_components_in_order() {
    let bytes = [0xff, 0xff, 0x00, 0x00, 0x00, 0x80, 0x01, 0x00, 1, 0, 2, 0, 3, 0, 4, 0];
    let decoded = GLTF::decode_binary_to_vector4::<u16>(&bytes).unwrap();
    assert_eq!(decoded, vec![[0xffff, 0x0000, 0x8000, 0x0001], [1, 2, 3, 4]]);
    let normalized: Vec<f32> = decoded[0].iter().map(|c| *c as f32 / u16::MAX as f32).collect();
    assert_eq!(normalized[0], 1.0);
    assert_eq!(normalized[1], 0.0);
    assert!((normalized[2] - 0.5).abs() < 0.0001);
    assert!(normalized.iter().all(|n| 0.0 <= *n && *n <= 1.0));
}

#[test]
fn quads_of_partial_length_are_misaligned() {
    assert_eq!(
        GLTF::decode_binary_to_vector4::<u16>(&[0, 0, 0, 0, 0, 0]),
        Err(StructuralError::MisalignedBuffer)
    );
    assert_eq!(
        GLTF::decode_binary_to_vector4::<u32>(&[0; 8]),
        Err(StructuralError::MisalignedBuffer)
    );
    assert_eq!(GLTF::decode_binary_to_vector4::<u32>(&[0; 16]), Ok(vec![[0, 0, 0, 0]]));
    assert_eq!(GLTF::decode_binary_to_vector4::<u16>(&[]), Ok(vec![]));
}

#[test]
fn one_value_is_decoded_from_the_start_of_the_bytes() {
    assert_eq!(u16::decode_binary(&[0x34, 0x12, 0xff]), 0x1234);
    assert_eq!(u32::decode_binary(&[0x78, 0x56, 0x34, 0x12]), 0x1234_5678);
    assert_eq!(u16::size(), 2);
    assert_eq!(u32::size(), 4);
    assert_eq!(Vector3::size(), 12);
}

#[test]
fn from_binary_reads_the_first_value_of_a_whole_run() {
    assert_eq!(u16::from_binary(&[0x01, 0x02]), Ok(0x0201));
    assert_eq!(u16::from_binary(&[0x01, 0x02, 0x03, 0x04]), Ok(0x0201));
    assert_eq!(u16::from_binary(&[]), Err(StructuralError::MisalignedBuffer));
    assert_eq!(u16::from_binary(&[1, 2, 3]), Err(StructuralError::MisalignedBuffer));
    assert_eq!(u32::from_binary(&[0x01, 0x00, 0x00, 0x80]), Ok(0x8000_0001));
    assert_eq!(u32::from_binary(&[1, 2]), Err(StructuralError::MisalignedBuffer));
    assert_eq!(decode_first::<u32>(&[1, 0, 0, 0, 2, 0, 0, 0]), Ok(1));
}

#[test]
fn from_binary_collection_reads_every_value() {
    assert_eq!(u16::from_binary_collection(&[1, 0, 2, 0, 3, 0]), Ok(vec![1, 2, 3]));
    assert_eq!(u32::from_binary_collection(&[1, 0, 0, 0, 0, 0, 0, 1]), Ok(vec![1, 0x0100_0000]));
    assert_eq!(u32::from_binary_collection(&[1, 0, 0]), Err(StructuralError::MisalignedBuffer));
    assert_eq!(
        Vector3::from_binary_collection(&floats(&[1.0, 2.0, 3.0])),
        Ok(vec![Vector3::new(1.0f32.to_bits(), 2.0f32.to_bits(), 3.0f32.to_bits())])
    );
    assert_eq!(decode_elements::<u16>(&[9, 0]), Ok(vec![9]));
}

#[test]
fn a_data_uri_decodes_to_its_payload() {
    let data = buffer("data:application/octet-stream;base64,AQID").get_data();
    assert_eq!(data, Ok(vec![1, 2, 3]));
}

#[test]
fn a_padded_payload_decodes() {
    let data = buffer("data:application/octet-stream;base64,aGVsbG8gd29ybGQ=").get_data();
    assert_eq!(data, Ok(b"hello world".to_vec()));
}

#[test]
fn an_empty_payload_is_an_empty_buffer() {
    assert_eq!(buffer("data:application/octet-stream;base64,").get_data(), Ok(vec![]));
}

#[test]
fn another_scheme_is_unsupported() {
    let data = buffer("data:image/png;base64,AQID").get_data();
    assert_eq!(data, Err(StructuralError::UnsupportedScheme));
}

#[test]
fn a_scheme_without_its_comma_is_unsupported() {
    assert_eq!(
        buffer("data:application/octet-stream;base64").get_data(),
        Err(StructuralError::UnsupportedScheme)
    );
    assert_eq!(
        buffer("data:application/octet-stream;base64;AQID").get_data(),
        Err(StructuralError::UnsupportedScheme)
    );
    assert_eq!(buffer("").get_data(), Err(StructuralError::UnsupportedScheme));
    assert_eq!(buffer("scene.bin").get_data(), Err(StructuralError::UnsupportedScheme));
}

#[test]
fn a_broken_payload_is_malformed() {
    assert_eq!(
        buffer("data:application/octet-stream;base64,A").get_data(),
        Err(StructuralError::MalformedBase64)
    );
    assert_eq!(
        buffer("data:application/octet-stream;base64,AQ*D").get_data(),
        Err(StructuralError::MalformedBase64)
    );
    assert_eq!(
        buffer("data:application/octet-stream;base64,AQID\n").get_data(),
        Err(StructuralError::MalformedBase64)
    );
}

#[test]
fn decoding_twice_gives_the_same_bytes() {
    let payload: Vec<u8> = (0..=255).collect();
    let uri = format!("data:application/octet-stream;base64,{}", base64::encode(&payload));
    let one = buffer(&uri);
    let first = one.get_data();
    let second = one.get_data();
    let third = buffer(&uri).get_data();
    assert_eq!(first, Ok(payload));
    assert_eq!(first, second);
    assert_eq!(first, third);
}
