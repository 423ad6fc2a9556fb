use join_proxy::bytes::{ascii_bytes, bytes_equal, chars_of, copy_range};
use join_proxy::encoding::parse_hex_u64;
use join_proxy::forwarding::{decode_config_uid, ProxyError};
use join_proxy::sec1::{
    expand_coord_with_endian, generate_sec1_candidates, rebuild_from_compact_vec, reconstruct_truncated_vec,
    CurveKind, Endian,
};

#[test]
fn hex_decoding() {
    assert_eq!(decode_config_uid(b"00ff10"), Ok(vec![0x00, 0xff, 0x10]));
    assert_eq!(decode_config_uid(b"ABcd"), Ok(vec![0xab, 0xcd]));
    assert_eq!(decode_config_uid(b""), Ok(vec![]));
    assert_eq!(decode_config_uid(b"abc"), Err(ProxyError::BrokenHexId));
    assert_eq!(decode_config_uid(b"zz"), Err(ProxyError::BrokenHexId));
}

#[test]
fn hex_numbers() {
    assert_eq!(parse_hex_u64("ff"), Some(255));
    assert_eq!(parse_hex_u64("+10"), Some(16));
    assert_eq!(parse_hex_u64("FFFFFFFFFFFFFFFF"), Some(u64::MAX));
    assert_eq!(parse_hex_u64("10000000000000000"), None);
    assert_eq!(parse_hex_u64(""), None);
    assert_eq!(parse_hex_u64("+"), None);
    assert_eq!(parse_hex_u64("-1"), None);
    assert_eq!(parse_hex_u64("1g"), None);
}

#[test]
fn byte_helpers() {
    assert!(bytes_equal(b"abc", b"abc"));
    assert!(!bytes_equal(b"abc", b"abd"));
    assert!(!bytes_equal(b"abc", b"ab"));
    assert_eq!(copy_range(b"hello", 1, 4), b"ell".to_vec());
    assert_eq!(chars_of("hé"), vec!['h', 'é']);
    assert_eq!(ascii_bytes("Host"), b"Host".to_vec());
}

#[test]
fn coordinates_widen_to_32_bytes() {
    let big = expand_coord_with_endian(&[1, 2], Endian::Big).unwrap();
    let mut expected = [0u8; 32];
    expected[30] = 1;
    expected[31] = 2;
    assert_eq!(big, expected);
    let little = expand_coord_with_endian(&[1, 2], Endian::Little).unwrap();
    expected[30] = 2;
    expected[31] = 1;
    assert_eq!(little, expected);
    assert_eq!(expand_coord_with_endian(&[0u8; 33], Endian::Big), None);
}

#[test]
fn standard_sec1_points_are_kept() {
    let mut point = vec![0x04];
    point.extend_from_slice(&[7u8; 64]);
    assert_eq!(generate_sec1_candidates(&point, CurveKind::P256), vec![point.clone()]);
    let compressed = vec![0x02, 1, 2, 3];
    assert_eq!(generate_sec1_candidates(&compressed, CurveKind::Secp256k1), vec![compressed.clone()]);
}

#[test]
fn bare_coordinates_get_the_uncompressed_tag() {
    let raw = vec![9u8; 64];
    let mut expected = vec![0x04];
    expected.extend_from_slice(&raw);
    assert_eq!(generate_sec1_candidates(&raw, CurveKind::Secp256k1), vec![expected]);
}

#[test]
fn vendor_encodings_are_rebuilt() {
    // 0x0a, then x = [1, 2], y = [3, 4].
    let bytes = vec![0x0a, 1, 2, 3, 4];
    let mut big = vec![0x04];
    big.extend_from_slice(&[0u8; 30]);
    big.extend_from_slice(&[1, 2]);
    big.extend_from_slice(&[0u8; 30]);
    big.extend_from_slice(&[3, 4]);
    let mut little = vec![0x04];
    little.extend_from_slice(&[0u8; 30]);
    little.extend_from_slice(&[2, 1]);
    little.extend_from_slice(&[0u8; 30]);
    little.extend_from_slice(&[4, 3]);
    assert_eq!(reconstruct_truncated_vec(&bytes, CurveKind::P256, Endian::Big), Some(big.clone()));
    assert_eq!(reconstruct_truncated_vec(&bytes, CurveKind::Secp256k1, Endian::Big), None);
    assert_eq!(rebuild_from_compact_vec(&bytes, CurveKind::P256, Endian::Little), Some(little.clone()));
    assert_eq!(rebuild_from_compact_vec(&bytes, CurveKind::Secp256k1, Endian::Big), None);
    // The truncated and compact readings coincide here; each appears once.
    assert_eq!(generate_sec1_candidates(&bytes, CurveKind::P256), vec![big, little]);
}

#[test]
fn compact_secp256k1_encoding() {
    let bytes = vec![0x0b, 5, 6];
    let mut big = vec![0x04];
    big.extend_from_slice(&[0u8; 31]);
    big.push(5);
    big.extend_from_slice(&[0u8; 31]);
    big.push(6);
    let candidates = generate_sec1_candidates(&bytes, CurveKind::Secp256k1);
    assert_eq!(candidates.len(), 1);
    assert_eq!(candidates[0], big);
}

#[test]
fn unknown_encodings_are_tried_as_they_are() {
    let bytes = vec![0x55, 1, 2];
    assert_eq!(generate_sec1_candidates(&bytes, CurveKind::P256), vec![bytes.clone()]);
    assert_eq!(generate_sec1_candidates(&[], CurveKind::P256), vec![Vec::<u8>::new()]);
}
