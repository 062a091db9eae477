use evmcore::analyze::FunctionEntry;
use evmcore::decompile::{
    analyze_all, decompile_bytecode_bytes, decompile_with_bytecode, decompile_with_resolved,
    selector_key,
};
use evmcore::output::{ABIStructure, AbiKind, Mutability};
use evmcore::resolve::{rank_candidates, select_default, ResolvedSig, SignatureCache};
use evmcore::selectors::find_function_selectors;

fn sig(text: &str) -> ResolvedSig {
    ResolvedSig {
        signature: text.as_bytes().to_vec(),
    }
}

/// Dispatcher comparing one selector and jumping to its body at 10.
fn dispatcher(selector: [u8; 4], body: &[u8]) -> Vec<u8> {
    let mut code = vec![0x63];
    code.extend_from_slice(&selector);
    code.push(0x14); // EQ
    code.extend_from_slice(&[0x61, 0x00, 0x0a]); // PUSH2 10
    code.push(0x57); // JUMPI
    assert_eq!(code.len(), 10);
    code.push(0x5b); // JUMPDEST: the function body entry
    code.extend_from_slice(body);
    code
}

/// Body reading an address argument and a word argument, then stopping.
fn transfer_like_body() -> Vec<u8> {
    let mut body = vec![0x60, 0x04, 0x35]; // PUSH1 4, CALLDATALOAD
    body.push(0x73); // PUSH20 of 20 0xff bytes
    body.extend_from_slice(&[0xff; 20]);
    body.push(0x16); // AND
    body.push(0x50); // POP
    body.extend_from_slice(&[0x60, 0x24, 0x35, 0x50]); // second argument
    body.push(0x00); // STOP
    body
}

fn abi_eq(a: &ABIStructure, b: &ABIStructure) -> bool {
    a.kind == b.kind
        && a.selector == b.selector
        && a.signature == b.signature
        && a.input_masks == b.input_masks
        && a.entry_point == b.entry_point
        && a.return_size == b.return_size
        && a.state_mutability == b.state_mutability
}

fn entry_eq(a: &FunctionEntry, b: &FunctionEntry) -> bool {
    a.selector == b.selector
        && a.entry_point == b.entry_point
        && a.arguments.len() == b.arguments.len()
        && a
            .arguments
            .iter()
            .zip(b.arguments.iter())
            .all(|(x, y)| x.slot == y.slot && x.mask_size == y.mask_size)
        && a.storage == b.storage
        && a.return_size == b.return_size
        && a.events == b.events
        && a.errors == b.errors
        && a.pure == b.pure
        && a.view == b.view
        && a.payable == b.payable
        && a.budget_exhausted == b.budget_exhausted
}

#[test]
fn empty_bytecode_yields_empty_list() {
    let out = decompile_with_bytecode("0x".to_string(), "".to_string());
    assert_eq!(out.len(), 0);
    let out = decompile_with_bytecode("0x0000".to_string(), "".to_string());
    assert_eq!(out.len(), 0);
}

#[test]
fn invalid_hex_yields_empty_list() {
    let out = decompile_with_bytecode("0xzz".to_string(), "".to_string());
    assert_eq!(out.len(), 0);
    let out = decompile_with_bytecode("0x123".to_string(), "".to_string());
    assert_eq!(out.len(), 0);
}

#[test]
fn selector_discovered_verbatim() {
    let code = dispatcher([0xa9, 0x05, 0x9c, 0xbb], &transfer_like_body());
    let instrs = evmcore::disasm::disassemble(&code);
    let found = find_function_selectors(&instrs);
    assert_eq!(found.len(), 1);
    assert_eq!(found[0].selector, vec![0xa9, 0x05, 0x9c, 0xbb]);
    assert_eq!(found[0].dest, 10);
}

#[test]
fn transfer_selector_resolves_with_masks() {
    let code = dispatcher([0xa9, 0x05, 0x9c, 0xbb], &transfer_like_body());
    let mut cache = SignatureCache::new();
    let key = selector_key(&vec![0xa9, 0x05, 0x9c, 0xbb]);
    cache.insert(key, vec![sig("transfer(address,uint256)")]);
    let out = decompile_with_resolved(&code, &cache, true);
    assert_eq!(out.len(), 1);
    assert_eq!(out[0].kind, AbiKind::Function);
    assert_eq!(out[0].selector, vec![0xa9, 0x05, 0x9c, 0xbb]);
    assert_eq!(
        out[0].signature.as_deref(),
        Some(b"transfer(address,uint256)".as_slice())
    );
    assert_eq!(out[0].input_masks, vec![20, 32]);
}

#[test]
fn fallback_only_contract() {
    // CALLVALUE; ISZERO; PUSH1 10; JUMPI; PUSH1 0; PUSH1 0; REVERT;
    // JUMPDEST; STOP — a guarded fallback, not payable.
    let code = vec![
        0x34, 0x15, 0x60, 0x0a, 0x57, 0x60, 0x00, 0x60, 0x00, 0xfd, 0x5b, 0x00,
    ];
    let instrs = evmcore::disasm::disassemble(&code);
    assert_eq!(find_function_selectors(&instrs).len(), 0);
    let out = decompile_bytecode_bytes(&code);
    assert_eq!(out.len(), 1);
    assert_eq!(out[0].kind, AbiKind::Function);
    assert_eq!(out[0].selector, Vec::<u8>::new());
    assert_ne!(out[0].state_mutability, Mutability::Payable);
}

#[test]
fn fallback_without_guard_is_payable() {
    let code = vec![0x00]; // STOP only: accepts any value
    let entries = analyze_all(&code);
    assert_eq!(entries.len(), 1);
    assert!(entries[0].payable);
    // never having touched state, it also stays pure, which the
    // mutability rendering reports first
    let out = decompile_bytecode_bytes(&code);
    assert_eq!(out.len(), 1);
    assert_eq!(out[0].state_mutability, Mutability::Pure);
}

#[test]
fn storage_reader_flags() {
    // body: CALLVALUE; ISZERO; PUSH2 22; JUMPI; PUSH1 0; PUSH1 0;
    // REVERT; JUMPDEST; PUSH1 0; SLOAD; PUSH1 0; MSTORE; PUSH1 32;
    // PUSH1 0; RETURN
    let body = vec![
        0x34, 0x15, 0x61, 0x00, 0x16, 0x57, 0x60, 0x00, 0x60, 0x00, 0xfd, 0x5b, 0x60, 0x00, 0x54,
        0x60, 0x00, 0x52, 0x60, 0x20, 0x60, 0x00, 0xf3,
    ];
    let code = dispatcher([0x12, 0x34, 0x56, 0x78], &body);
    let entries = analyze_all(&code);
    assert_eq!(entries.len(), 1);
    let f = &entries[0];
    assert!(!f.pure);
    assert!(f.view);
    assert!(!f.payable);
    assert_eq!(f.storage, vec![0]);
    assert_eq!(f.return_size, Some(32));
}

#[test]
fn default_selection_takes_lexicographically_last() {
    let candidates = vec![sig("bbb(uint256)"), sig("aaa(uint256)"), sig("abc(uint256)")];
    let ranked = rank_candidates(candidates);
    assert_eq!(ranked[0].signature, b"aaa(uint256)".to_vec());
    assert_eq!(ranked[1].signature, b"abc(uint256)".to_vec());
    assert_eq!(ranked[2].signature, b"bbb(uint256)".to_vec());
    let chosen = select_default(&ranked).unwrap();
    assert_eq!(chosen.signature, b"bbb(uint256)".to_vec());
}

#[test]
fn deadbeef_default_choice_through_pipeline() {
    // one word-sized argument
    let body = vec![0x60, 0x04, 0x35, 0x50, 0x00];
    let code = dispatcher([0xde, 0xad, 0xbe, 0xef], &body);
    let mut cache = SignatureCache::new();
    let key = selector_key(&vec![0xde, 0xad, 0xbe, 0xef]);
    cache.insert(
        key,
        vec![sig("bbb(uint256)"), sig("aaa(uint256)"), sig("abc(uint256)")],
    );
    let out = decompile_with_resolved(&code, &cache, true);
    assert_eq!(out.len(), 1);
    assert_eq!(out[0].signature.as_deref(), Some(b"bbb(uint256)".as_slice()));
}

#[test]
fn signature_cache_answers_second_query_from_memory() {
    let mut cache = SignatureCache::new();
    assert!(!cache.contains(0xa9059cbb));
    assert!(cache.get(0xa9059cbb).is_none());
    cache.insert(0xa9059cbb, vec![sig("transfer(address,uint256)")]);
    let first = cache.get(0xa9059cbb).unwrap();
    let second = cache.get(0xa9059cbb).unwrap();
    assert_eq!(first.len(), 1);
    assert_eq!(first[0].signature, second[0].signature);
    assert_eq!(first[0].signature, b"transfer(address,uint256)".to_vec());
    assert!(cache.contains(0xa9059cbb));
}

#[test]
fn decompilation_is_deterministic() {
    let code = dispatcher([0xa9, 0x05, 0x9c, 0xbb], &transfer_like_body());
    let a = decompile_bytecode_bytes(&code);
    let b = decompile_bytecode_bytes(&code);
    assert_eq!(a.len(), b.len());
    for (x, y) in a.iter().zip(b.iter()) {
        assert!(abi_eq(x, y));
    }
}

#[test]
fn analyzer_is_idempotent_on_same_entry() {
    let code = dispatcher([0xa9, 0x05, 0x9c, 0xbb], &transfer_like_body());
    let a = analyze_all(&code);
    let b = analyze_all(&code);
    assert_eq!(a.len(), b.len());
    for (x, y) in a.iter().zip(b.iter()) {
        assert!(entry_eq(x, y));
    }
}

#[test]
fn output_sorted_by_selector() {
    // two selectors, inserted with the larger one first in the
    // dispatcher
    let mut code = vec![0x63, 0xff, 0x00, 0x00, 0x01, 0x14, 0x61, 0x00, 0x14, 0x57];
    code.extend_from_slice(&[0x63, 0x00, 0x00, 0x00, 0x02, 0x14, 0x61, 0x00, 0x16, 0x57]);
    assert_eq!(code.len(), 20);
    code.push(0x5b); // pc 20: body of first selector
    code.push(0x00);
    code.push(0x5b); // pc 22: body of second selector
    code.push(0x00);
    let out = decompile_bytecode_bytes(&code);
    assert_eq!(out.len(), 2);
    assert_eq!(out[0].selector, vec![0x00, 0x00, 0x00, 0x02]);
    assert_eq!(out[1].selector, vec![0xff, 0x00, 0x00, 0x01]);
}

#[test]
fn analysis_budget_exhaustion_is_reported() {
    // JUMPDEST; PUSH1 0; JUMP — an endless loop back to the start
    let code = vec![0x5b, 0x60, 0x00, 0x56];
    let instrs = evmcore::disasm::disassemble(&code);
    let (_, exhausted) = evmcore::sym::map_selector(&code, &instrs, 0, 5);
    assert!(exhausted);
    // with room to spare the loop is cut instead, and the budget holds
    let (_, exhausted) = evmcore::sym::map_selector(&code, &instrs, 0, 1000);
    assert!(!exhausted);
    let entries = analyze_all(&code);
    assert_eq!(entries.len(), 1);
    assert!(!entries[0].budget_exhausted);
}

#[test]
fn false_positive_selector_is_skipped() {
    // the dispatch pattern jumps to offset 10, where no JUMPDEST stands
    let mut code = vec![0x63, 0x11, 0x22, 0x33, 0x44, 0x14, 0x61, 0x00, 0x0a, 0x57];
    code.push(0x00); // pc 10: STOP, not a JUMPDEST
    let instrs = evmcore::disasm::disassemble(&code);
    let found = find_function_selectors(&instrs);
    assert_eq!(found.len(), 1);
    let entries = analyze_all(&code);
    assert_eq!(entries.len(), 0);
}

#[test]
fn unmatched_parameters_leave_signature_unresolved() {
    // one word-sized argument, but the only candidate takes an address
    let body = vec![0x60, 0x04, 0x35, 0x50, 0x00];
    let code = dispatcher([0xde, 0xad, 0xbe, 0xef], &body);
    let mut cache = SignatureCache::new();
    let key = selector_key(&vec![0xde, 0xad, 0xbe, 0xef]);
    cache.insert(key, vec![sig("foo(address)")]);
    let out = decompile_with_resolved(&code, &cache, true);
    assert_eq!(out.len(), 1);
    assert!(out[0].signature.is_none());
}

#[test]
fn events_and_errors_become_entries() {
    // body: two LOG1s, topics bb then aa (out of order), then
    //       PUSH4 deadbeef; POP; PUSH1 4; PUSH1 0; REVERT
    let mut body = vec![0x7f];
    body.extend_from_slice(&[0xbb; 32]);
    body.extend_from_slice(&[0x60, 0x00, 0x60, 0x00, 0xa1]);
    body.push(0x7f);
    body.extend_from_slice(&[0xaa; 32]);
    body.extend_from_slice(&[0x60, 0x00, 0x60, 0x00, 0xa1]);
    body.extend_from_slice(&[0x63, 0xde, 0xad, 0xbe, 0xef, 0x50]);
    body.extend_from_slice(&[0x60, 0x04, 0x60, 0x00, 0xfd]);
    let code = dispatcher([0x11, 0x22, 0x33, 0x44], &body);
    let out = decompile_bytecode_bytes(&code);
    assert_eq!(out.len(), 4);
    assert_eq!(out[0].kind, AbiKind::Function);
    // events follow the functions, sorted by topic
    assert_eq!(out[1].kind, AbiKind::Event);
    assert_eq!(out[1].selector, vec![0xaa; 32]);
    assert_eq!(out[2].kind, AbiKind::Event);
    assert_eq!(out[2].selector, vec![0xbb; 32]);
    // errors come last, sorted by selector
    assert_eq!(out[3].kind, AbiKind::Error);
    assert_eq!(out[3].selector, vec![0xde, 0xad, 0xbe, 0xef]);
    // a LOG downgrades view; the revert path means no acceptance proof
    assert_eq!(out[0].state_mutability, Mutability::NonPayable);
}

#[test]
fn budget_exhaustion_is_visible_in_the_output() {
    // JUMPDEST; PUSH1 0; JUMP — an endless loop back to the start
    let code = vec![0x5b, 0x60, 0x00, 0x56];
    let instrs = evmcore::disasm::disassemble(&code);
    let (evidence, exhausted) = evmcore::sym::map_selector(&code, &instrs, 0, 5);
    assert!(exhausted);
    let entry = evmcore::analyze::collapse_evidence(Vec::new(), 0, &evidence, exhausted);
    let out = evmcore::output::build_output(vec![entry]);
    assert_eq!(out.len(), 1);
    assert!(out[0].budget_exhausted);
}

#[test]
fn ranking_puts_shorter_signatures_first() {
    let ranked = rank_candidates(vec![sig("a(uint256)"), sig("dd(uint8)")]);
    assert_eq!(ranked[0].signature, b"dd(uint8)".to_vec());
    assert_eq!(ranked[1].signature, b"a(uint256)".to_vec());
}

#[test]
fn round_trip_on_mixed_stream() {
    // every opcode class: plain, PUSH with full immediate, PUSH cut
    // short at the end
    let mut code: Vec<u8> = Vec::new();
    for b in 0u16..=255 {
        code.push((b % 251) as u8);
    }
    code.push(0x7f); // trailing PUSH32 with no immediate bytes left
    let instrs = evmcore::disasm::disassemble(&code);
    assert_eq!(evmcore::disasm::assemble(&instrs), code);
}
