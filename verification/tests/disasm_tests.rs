use evmcore::disasm::{assemble, disassemble};
use evmcore::fingerprint::{detect_compiler, version_string};
use evmcore::hexutil::{canonicalize_hex, decode_hex, encode_hex};
use evmcore::opcode::push_size;
use evmcore::target::{validate_target, TargetKind};

#[test]
fn push_sizes() {
    assert_eq!(push_size(0x60), 1);
    assert_eq!(push_size(0x7f), 32);
    assert_eq!(push_size(0x63), 4);
    assert_eq!(push_size(0x5b), 0);
    assert_eq!(push_size(0x00), 0);
}

#[test]
fn hex_decode_exact() {
    let d = decode_hex(b"0a0Bff00").unwrap();
    assert_eq!(d, vec![0x0a, 0x0b, 0xff, 0x00]);
    assert!(decode_hex(b"0a0").is_none());
    assert!(decode_hex(b"zz").is_none());
    assert_eq!(decode_hex(b"").unwrap(), Vec::<u8>::new());
}

#[test]
fn hex_encode_round_trip() {
    let b = vec![0x00u8, 0x12, 0xab, 0xff];
    let e = encode_hex(&b);
    assert_eq!(e, b"0012abff".to_vec());
    assert_eq!(decode_hex(&e).unwrap(), b);
}

#[test]
fn canonicalize_strips_marker_and_null_pairs() {
    assert_eq!(canonicalize_hex(b"0x00000102"), b"0102".to_vec());
    assert_eq!(canonicalize_hex(b"0102"), b"0102".to_vec());
    assert_eq!(canonicalize_hex(b"0x"), Vec::<u8>::new());
    assert_eq!(canonicalize_hex(b"0x0000"), Vec::<u8>::new());
}

#[test]
fn disassembly_reassembles_exactly() {
    // PUSH1 01, PUSH4 aabbccdd, ADD, STOP
    let code = vec![0x60, 0x01, 0x63, 0xaa, 0xbb, 0xcc, 0xdd, 0x01, 0x00];
    let instrs = disassemble(&code);
    assert_eq!(instrs.len(), 4);
    assert_eq!(instrs[0].pc, 0);
    assert_eq!(instrs[0].opcode, 0x60);
    assert_eq!(instrs[0].immediate, vec![0x01]);
    assert_eq!(instrs[1].pc, 2);
    assert_eq!(instrs[1].immediate, vec![0xaa, 0xbb, 0xcc, 0xdd]);
    let back = assemble(&instrs);
    assert_eq!(back, code);
}

#[test]
fn disassembly_truncated_immediate_round_trips() {
    // PUSH32 with only three immediate bytes present
    let code = vec![0x7f, 0x01, 0x02, 0x03];
    let instrs = disassemble(&code);
    assert_eq!(instrs.len(), 1);
    assert_eq!(instrs[0].immediate, vec![0x01, 0x02, 0x03]);
    assert_eq!(assemble(&instrs), code);
}

#[test]
fn target_kinds() {
    let addr = "0x000102030405060708090a0b0c0d0e0f10111213";
    assert_eq!(validate_target(addr), TargetKind::Address);
    let hash = "0x000102030405060708090a0b0c0d0e0f101112131415161718191a1b1c1d1e1f";
    assert_eq!(validate_target(hash), TargetKind::TransactionHash);
    assert_eq!(validate_target("0x6001"), TargetKind::RawHex);
    assert_eq!(validate_target("0x"), TargetKind::RawHex);
    assert_eq!(validate_target("hello world"), TargetKind::Invalid);
    // 40 hex digits without the marker are an address, not raw hex
    assert_eq!(
        validate_target("000102030405060708090a0b0c0d0e0f10111213"),
        TargetKind::Address
    );
}

#[test]
fn compiler_fingerprint_solc() {
    // tail: ...  d s o l c C 0 8 19 ...
    let mut code = vec![0x60, 0x01, 0x50];
    code.extend_from_slice(&[0x64, 0x73, 0x6f, 0x6c, 0x63, 0x43, 0x00, 0x08, 0x13]);
    let (producer, version) = detect_compiler(&code);
    assert_eq!(producer, "solc");
    assert_eq!(version, "0.8.19");
}

#[test]
fn compiler_fingerprint_unknown() {
    let code = vec![0x60, 0x01, 0x50];
    let (producer, version) = detect_compiler(&code);
    assert_eq!(producer, "unknown");
    assert_eq!(version, "unknown");
}

#[test]
fn version_rendering() {
    assert_eq!(version_string(0, 8, 19), "0.8.19");
    assert_eq!(version_string(10, 0, 255), "10.0.255");
}

#[test]
fn hex_matches_reference_crate() {
    let b = vec![0xdeu8, 0xad, 0xbe, 0xef];
    assert_eq!(String::from_utf8(encode_hex(&b)).unwrap(), hex::encode(&b));
}
