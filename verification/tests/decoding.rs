use std::io::Write;

use zokrates_sprout::utils::{convert, convert_zlib_hex_to_bytes};

fn zlib_hex(data: &[u8]) -> String {
    let mut enc = flate2::write::ZlibEncoder::new(Vec::new(), flate2::Compression::default());
    enc.write_all(data).unwrap();
    hex::encode(enc.finish().unwrap())
}

#[test]
fn decodes_hex_zlib_payload() {
    let payload = zlib_hex(b"hello zokrates");
    assert_eq!(convert_zlib_hex_to_bytes(&payload), Ok(b"hello zokrates".to_vec()));
}

#[test]
fn decodes_upper_case_hex() {
    let payload = zlib_hex(&[0u8, 1, 2, 255]).to_uppercase();
    assert_eq!(convert_zlib_hex_to_bytes(&payload), Ok(vec![0u8, 1, 2, 255]));
}

#[test]
fn odd_length_hex_is_rejected() {
    assert_eq!(
        convert_zlib_hex_to_bytes("abc"),
        Err("couldn't convert hex string to bytes Odd number of digits".to_string())
    );
}

#[test]
fn invalid_hex_character_is_rejected() {
    assert_eq!(
        convert_zlib_hex_to_bytes("0z"),
        Err("couldn't convert hex string to bytes Invalid character 'z' at position 1".to_string())
    );
}

#[test]
fn non_zlib_bytes_are_rejected() {
    let res = convert_zlib_hex_to_bytes("00ff");
    let err = res.unwrap_err();
    assert!(err.starts_with("couldn't decompress string "));
}

#[test]
fn convert_names_the_payload_in_its_error() {
    assert_eq!(
        convert("abc", "content"),
        Err("couldn't decode project_config content. should have been handled prior couldn't convert hex string to bytes Odd number of digits".to_string())
    );
    let payload = zlib_hex(b"key");
    assert_eq!(convert(&payload, "proving_key"), Ok(b"key".to_vec()));
}

#[test]
fn hex_of_a_stream_reads_back_in_either_case() {
    let mut enc = flate2::write::ZlibEncoder::new(Vec::new(), flate2::Compression::best());
    enc.write_all(&[7u8; 100]).unwrap();
    let z = enc.finish().unwrap();
    assert_eq!(convert_zlib_hex_to_bytes(&hex::encode(&z)), Ok(vec![7u8; 100]));
    assert_eq!(convert_zlib_hex_to_bytes(&hex::encode_upper(&z)), Ok(vec![7u8; 100]));
}
