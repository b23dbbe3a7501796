//! Streaming-protocol tests: key derivation, framing, encryption, round
//! trips, and path safety.

use carpet_core::codec::{decode_file, encode_file, file_round_trip, progress_percent};
use carpet_core::crypto::{get_key_and_ssid, nonce_bytes};
use carpet_core::paths::validate_relative_path;
use carpet_core::text::u64_to_decimal;
use carpet_core::wire::{read_u64_be, write_u64_be};

#[test]
fn key_derivation_is_deterministic() {
    let (key1, ssid1) = get_key_and_ssid("hunter22hunter22");
    let (key2, ssid2) = get_key_and_ssid("hunter22hunter22");
    assert_eq!(key1, key2);
    assert_eq!(ssid1, ssid2);
    assert_eq!(key1.len(), 32);
    assert!(ssid1.starts_with("flyingCarpet_"));
    assert_eq!(ssid1.len(), "flyingCarpet_".len() + 4);
}

#[test]
fn different_passphrases_derive_different_keys() {
    let (key_a, _) = get_key_and_ssid("A");
    let (key_b, _) = get_key_and_ssid("B");
    assert_ne!(key_a, key_b);
}

#[test]
fn single_small_file_round_trip() {
    let (key, _) = get_key_and_ssid("hunter22hunter22");
    let stream = encode_file(&key, b"a.txt", b"hello\n");
    let decoded = decode_file(&key, &stream, 0).expect("decoding a sender stream");
    assert_eq!(decoded.path, b"a.txt".to_vec());
    assert_eq!(decoded.contents, b"hello\n".to_vec());
    assert_eq!(decoded.size, 6);
    assert_eq!(decoded.end, stream.len());
}

#[test]
fn chunk_boundary_three_frames() {
    let (key, _) = get_key_and_ssid("hunter22hunter22");
    let contents = vec![0x5au8; 2_500_000];
    let stream = encode_file(&key, b"file.bin", &contents);
    // path frame + size word + two full frames + one short frame + terminator
    let expected_len = (8 + 8) + 8 + (8 + 1_000_016) + (8 + 1_000_016) + (8 + 500_016) + 8;
    assert_eq!(stream.len(), expected_len);
    let decoded = decode_file(&key, &stream, 0).expect("decoding a sender stream");
    assert_eq!(decoded.contents, contents);
    assert_eq!(decoded.size, 2_500_000);
    assert_eq!(decoded.end, stream.len());
}

#[test]
fn empty_file_round_trip() {
    let (key, _) = get_key_and_ssid("hunter22hunter22");
    let stream = encode_file(&key, b"empty.txt", b"");
    // path frame + size word + terminator only: no data frames
    assert_eq!(stream.len(), (8 + 9) + 8 + 8);
    let decoded = decode_file(&key, &stream, 0).expect("decoding a sender stream");
    assert_eq!(decoded.contents, Vec::<u8>::new());
    assert_eq!(decoded.size, 0);
}

#[test]
fn wrong_passphrase_fails_decryption() {
    let (key_a, _) = get_key_and_ssid("A");
    let (key_b, _) = get_key_and_ssid("B");
    let stream = encode_file(&key_a, b"a.txt", b"hello\n");
    let err = decode_file(&key_b, &stream, 0).expect_err("wrong key must fail");
    assert!(err.message.contains("decrypt"));
}

#[test]
fn tampered_frame_fails_decryption() {
    let (key, _) = get_key_and_ssid("hunter22hunter22");
    let mut stream = encode_file(&key, b"a.txt", b"hello\n");
    let last = stream.len() - 9;
    stream[last] ^= 1;
    assert!(decode_file(&key, &stream, 0).is_err());
}

#[test]
fn parent_reference_path_is_rejected() {
    let (key, _) = get_key_and_ssid("hunter22hunter22");
    let stream = encode_file(&key, b"../secret", b"data");
    let err = decode_file(&key, &stream, 0).expect_err("parent reference must be rejected");
    assert!(err.message.contains("path"));
}

#[test]
fn relative_path_validation() {
    assert!(validate_relative_path(b"a/b.txt"));
    assert!(validate_relative_path(b"a..b"));
    assert!(validate_relative_path(b"..a/b"));
    assert!(!validate_relative_path(b""));
    assert!(!validate_relative_path(b"/etc/passwd"));
    assert!(!validate_relative_path(b".."));
    assert!(!validate_relative_path(b"../x"));
    assert!(!validate_relative_path(b"a/../b"));
    assert!(!validate_relative_path(b"a/.."));
}

#[test]
fn concatenated_streams_parse_back_to_back() {
    let (key, _) = get_key_and_ssid("hunter22hunter22");
    let first = encode_file(&key, b"one.txt", b"first file");
    let second = encode_file(&key, b"two.txt", b"second file");
    let mut both = first.clone();
    both.extend_from_slice(&second);
    let d1 = decode_file(&key, &both, 0).expect("first file");
    assert_eq!(d1.path, b"one.txt".to_vec());
    assert_eq!(d1.contents, b"first file".to_vec());
    assert_eq!(d1.end, first.len());
    let d2 = decode_file(&key, &both, d1.end).expect("second file");
    assert_eq!(d2.path, b"two.txt".to_vec());
    assert_eq!(d2.contents, b"second file".to_vec());
    assert_eq!(d2.end, both.len());
}

#[test]
fn verified_round_trip_runs() {
    let (key, _) = get_key_and_ssid("hunter22hunter22");
    let decoded = file_round_trip(&key, b"dir/name.txt", b"some contents");
    assert_eq!(decoded.path, b"dir/name.txt".to_vec());
    assert_eq!(decoded.contents, b"some contents".to_vec());
}

#[test]
fn truncated_stream_is_an_error() {
    let (key, _) = get_key_and_ssid("hunter22hunter22");
    let stream = encode_file(&key, b"a.txt", b"hello\n");
    assert!(decode_file(&key, &stream[..stream.len() - 1], 0).is_err());
    assert!(decode_file(&key, &stream[..4], 0).is_err());
}

#[test]
fn short_chunk_before_the_last_is_rejected() {
    let (key, _) = get_key_and_ssid("hunter22hunter22");
    let mut stream: Vec<u8> = Vec::new();
    write_u64_be(&mut stream, 5);
    stream.extend_from_slice(b"a.txt");
    write_u64_be(&mut stream, 10);
    let ct0 = carpet_core::codec::seal_chunk(&key, 0, b"12345");
    write_u64_be(&mut stream, ct0.len() as u64);
    stream.extend_from_slice(&ct0);
    let ct1 = carpet_core::codec::seal_chunk(&key, 1, b"67890");
    write_u64_be(&mut stream, ct1.len() as u64);
    stream.extend_from_slice(&ct1);
    write_u64_be(&mut stream, 0);
    let err = decode_file(&key, &stream, 0).expect_err("a sender never emits this");
    assert!(err.message.contains("unexpected size"));
}

#[test]
fn empty_chunk_is_rejected() {
    let (key, _) = get_key_and_ssid("hunter22hunter22");
    let mut stream: Vec<u8> = Vec::new();
    write_u64_be(&mut stream, 5);
    stream.extend_from_slice(b"a.txt");
    write_u64_be(&mut stream, 0);
    let ct = carpet_core::codec::seal_chunk(&key, 0, b"");
    write_u64_be(&mut stream, ct.len() as u64);
    stream.extend_from_slice(&ct);
    write_u64_be(&mut stream, 0);
    let err = decode_file(&key, &stream, 0).expect_err("a sender never emits this");
    assert!(err.message.contains("unexpected size"));
}

#[test]
fn progress_is_clamped_percentage() {
    assert_eq!(progress_percent(0, 100), 0);
    assert_eq!(progress_percent(50, 200), 25);
    assert_eq!(progress_percent(100, 100), 100);
    assert_eq!(progress_percent(7, 3), 100);
    assert_eq!(progress_percent(0, 0), 100);
    assert_eq!(progress_percent(999_999, 1_000_000), 99);
}

#[test]
fn wire_u64_big_endian() {
    let mut out: Vec<u8> = Vec::new();
    write_u64_be(&mut out, 0x0102030405060708);
    assert_eq!(out, vec![1, 2, 3, 4, 5, 6, 7, 8]);
    write_u64_be(&mut out, 0);
    assert_eq!(&out[8..], &[0u8; 8]);
    assert_eq!(read_u64_be(&out, 0), 0x0102030405060708);
    assert_eq!(read_u64_be(&out, 8), 0);
}

#[test]
fn nonce_is_counter_in_twelve_bytes() {
    assert_eq!(nonce_bytes(0), vec![0u8; 12]);
    assert_eq!(nonce_bytes(1), vec![0, 0, 0, 0, 0, 0, 0, 0, 0, 0, 0, 1]);
    assert_eq!(nonce_bytes(0x0102030405060708), vec![0, 0, 0, 0, 1, 2, 3, 4, 5, 6, 7, 8]);
}

#[test]
fn decimal_rendering() {
    assert_eq!(u64_to_decimal(0), "0");
    assert_eq!(u64_to_decimal(9), "9");
    assert_eq!(u64_to_decimal(12345), "12345");
    assert_eq!(u64_to_decimal(u64::MAX), "18446744073709551615");
}
