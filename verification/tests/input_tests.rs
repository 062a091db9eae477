use evmcore::input::{
    AccessPattern, BoxedABI, EVMInput, EVMInputTy, Env, EnvMutatorKind, EVMState, MutateRoute,
    MutationResult, MutatorInput, SlotPair, StagedVMState,
};
use evmcore::word::{Address, Word};

fn addr(b: u8) -> Address {
    Address { bytes: vec![b; 20] }
}

fn word_from(v: u8) -> Word {
    let mut bytes = vec![0u8; 32];
    bytes[31] = v;
    Word { bytes }
}

fn mk_input() -> EVMInput {
    EVMInput {
        input_type: EVMInputTy::ABI,
        caller: addr(0x11),
        contract: addr(0x22),
        data: Some(BoxedABI {
            bytes: vec![0xa9, 0x05, 0x9c, 0xbb, 0x01, 0x02],
            basic_types: vec![1, 2],
            unknown_size: 0,
        }),
        sstate: StagedVMState {
            state: EVMState {
                slots: vec![SlotPair {
                    key: word_from(1),
                    value: word_from(9),
                }],
                flashloan_earned: vec![0u8; 64],
                flashloan_owed: vec![0u8; 64],
            },
            initialized: true,
        },
        sstate_idx: 0,
        txn_value: None,
        step: false,
        env: Env::new_zero(),
        access_pattern: AccessPattern::new(),
        liquidation_percent: 0,
        direct_data: vec![],
        randomness: vec![],
        repeat: 1,
        cu_data: vec![],
        is_cuda: false,
        branch_distance: 0,
    }
}

fn snapshot(i: &EVMInput) -> (Vec<u8>, Vec<u8>, Option<Vec<u8>>, Vec<u8>, Vec<u8>) {
    (
        i.caller.bytes.clone(),
        i.contract.bytes.clone(),
        i.txn_value.as_ref().map(|w| w.bytes.clone()),
        i.env.block.timestamp.bytes.clone(),
        i.env.block.coinbase.bytes.clone(),
    )
}

#[test]
fn mutator_input_wraps_bytes() {
    let m = MutatorInput::new(vec![1, 2, 3]);
    assert_eq!(m.bytes(), &vec![1, 2, 3]);
}

#[test]
fn call_value_mutation_zeroes_top_sixteen_bytes() {
    let mut input = mk_input();
    let mutated = vec![0xffu8; 32];
    let r = EVMInput::call_value(&mut input, &mutated, MutationResult::Mutated);
    assert_eq!(r, MutationResult::Mutated);
    let v = input.txn_value.as_ref().unwrap();
    assert_eq!(&v.bytes[0..16], &[0u8; 16]);
    assert_eq!(&v.bytes[16..32], &[0xffu8; 16]);
}

#[test]
fn skipped_mutation_leaves_record_unchanged() {
    let mut input = mk_input();
    let before = snapshot(&input);
    let mutated = vec![0xffu8; 32];
    assert_eq!(
        EVMInput::call_value(&mut input, &mutated, MutationResult::Skipped),
        MutationResult::Skipped
    );
    assert_eq!(
        EVMInput::timestamp(&mut input, &mutated, MutationResult::Skipped),
        MutationResult::Skipped
    );
    assert_eq!(EVMInput::prevrandao(&mut input), MutationResult::Skipped);
    assert_eq!(EVMInput::gas_price(&mut input), MutationResult::Skipped);
    assert_eq!(EVMInput::balance(&mut input), MutationResult::Skipped);
    // a caller draw equal to the current caller is a skip
    assert_eq!(
        EVMInput::caller(&mut input, addr(0x11)),
        MutationResult::Skipped
    );
    assert_eq!(snapshot(&input), before);
    assert_eq!(
        input.pretty_txn().unwrap(),
        "a9059cbb0102 with no eth, liq percent: 0"
    );
}

#[test]
fn enabled_mutators_follow_access_pattern() {
    let mut input = mk_input();
    input.access_pattern.timestamp = true;
    input.access_pattern.caller = true;
    let kinds = input.enabled_env_mutators();
    assert_eq!(kinds, vec![EnvMutatorKind::Caller, EnvMutatorKind::Timestamp]);
    // a carried transaction value alone enables nothing: only the
    // recorded access pattern does
    let mut valued = mk_input();
    valued.set_txn_value(word_from(1));
    assert_eq!(valued.enabled_env_mutators(), vec![]);
    valued.access_pattern.call_value = true;
    assert_eq!(valued.enabled_env_mutators(), vec![EnvMutatorKind::CallValue]);
}

#[test]
fn thousand_mutations_touch_only_enabled_fields() {
    let mut input = mk_input();
    input.access_pattern.timestamp = true;
    input.access_pattern.caller = true;
    let base = snapshot(&input);
    let mut rng: u64 = 0x12345678;
    for _ in 0..1000 {
        rng = rng.wrapping_mul(6364136223846793005).wrapping_add(1442695040888963407);
        let drawn = addr((rng >> 32) as u8);
        let mut mutated = vec![0u8; 32];
        mutated[31] = (rng >> 24) as u8;
        let _ = input.mutate_env_with_access_pattern(
            rng,
            drawn,
            &mutated,
            MutationResult::Mutated,
        );
        // everything but the caller and the timestamp stays as it was
        assert_eq!(input.contract.bytes, base.1);
        assert_eq!(input.txn_value.as_ref().map(|w| w.bytes.clone()), base.2);
        assert_eq!(input.env.block.coinbase.bytes, base.4);
        assert_eq!(input.env.block.number.bytes, vec![0u8; 32]);
        assert_eq!(input.env.block.basefee.bytes, vec![0u8; 32]);
        assert_eq!(input.env.cfg.chain_id.bytes, vec![0u8; 32]);
        // the timestamp decodes back through the same big-endian routine
        let ts = &input.env.block.timestamp;
        let back = Word::try_from_be_slice(&ts.to_be_bytes()).unwrap();
        assert_eq!(back.bytes, ts.bytes);
    }
}

#[test]
fn mutation_route_follows_draw_and_payload() {
    let input = mk_input();
    assert_eq!(input.mutation_route(88), MutateRoute::Environment); // 88 % 100 > 87
    assert_eq!(input.mutation_route(50), MutateRoute::Payload);
    let mut no_payload = mk_input();
    no_payload.data = None;
    assert_eq!(no_payload.mutation_route(50), MutateRoute::Environment);
    let mut cuda = mk_input();
    cuda.is_cuda = true;
    assert_eq!(cuda.mutation_route(88), MutateRoute::Payload);
}

#[test]
fn foreign_bridge_marshals_little_endian() {
    let mut input = mk_input();
    input.env.block.timestamp = word_from(5);
    let (to, ts, num) = input.cu_env_payload();
    assert_eq!(to, vec![0x22u8; 20]);
    assert_eq!(ts[0], 5); // big-endian tail byte comes first
    assert_eq!(&ts[1..32], &[0u8; 31]);
    assert_eq!(num, vec![0u8; 32]);

    let (caller_le, value_le, calldata) = input.cu_seed_payload();
    assert_eq!(caller_le, vec![0x11u8; 20]);
    assert_eq!(value_le, vec![0u8; 32]);
    assert_eq!(calldata, vec![0xa9, 0x05, 0x9c, 0xbb, 0x01, 0x02]);

    let (storage, count) = input.cu_storage_payload();
    assert_eq!(count, 1);
    assert_eq!(storage.len(), 64);
    assert_eq!(storage[0], 1); // key little-endian
    assert_eq!(storage[32], 9); // value little-endian
}

#[test]
fn seed_size_guard() {
    let input = mk_input(); // calldata is 6 bytes
    assert!(!input.cu_seed_oversize(100));
    assert!(input.cu_seed_oversize(73));
    assert!(!input.cu_seed_oversize(74));
}

#[test]
fn step_mode_clears_transaction_value() {
    let mut input = mk_input();
    input.set_txn_value(word_from(7));
    assert!(input.txn_value.is_some());
    input.set_step(true);
    assert!(input.txn_value.is_none());
    assert!(input.is_step());
}

#[test]
fn post_exec_payload_has_size_hint() {
    let mut input = mk_input();
    input.set_as_post_exec(96);
    let d = input.data.as_ref().unwrap();
    assert_eq!(d.unknown_size, 96);
    assert_eq!(d.bytes.len(), 0);
    assert_eq!(input.len(), 0);
}

#[test]
fn word_big_endian_round_trip() {
    let w = word_from(0xab);
    let be = w.to_be_bytes();
    let back = Word::try_from_be_slice(&be).unwrap();
    assert_eq!(back.bytes, w.bytes);
    let le = w.to_le_bytes();
    assert_eq!(le[0], 0xab);
    let le_back = Word::try_from_be_slice(&le).unwrap();
    assert_eq!(le_back.to_le_bytes(), be);
}

#[test]
fn liquidate_without_payload_has_no_pretty_form() {
    let mut input = mk_input();
    input.input_type = EVMInputTy::Liquidate;
    input.data = None;
    assert!(input.pretty_txn().is_none());
}

#[test]
fn mutate_routes_and_applies() {
    // an environment draw with the caller mutator enabled
    let mut input = mk_input();
    input.access_pattern.caller = true;
    let mutated = vec![0u8; 32];
    let r = input.mutate(88, 0, addr(0x33), &mutated, MutationResult::Mutated);
    assert_eq!(r, Some(MutationResult::Mutated));
    assert_eq!(input.caller.bytes, vec![0x33u8; 20]);

    // a payload draw: the record is handed to the payload mutator
    let mut input = mk_input();
    let r = input.mutate(50, 0, addr(0x33), &mutated, MutationResult::Mutated);
    assert_eq!(r, None);

    // no payload forces the environment; nothing enabled means a skip
    let mut input = mk_input();
    input.data = None;
    let r = input.mutate(50, 0, addr(0x11), &mutated, MutationResult::Mutated);
    assert_eq!(r, Some(MutationResult::Skipped));
}

#[test]
fn pretty_txn_renders_value_and_percentage() {
    let mut input = mk_input();
    input.set_txn_value(word_from(0x2a));
    input.liquidation_percent = 35;
    let expected = format!(
        "a9059cbb0102 with 0x{}2a eth, liq percent: 35",
        "00".repeat(31)
    );
    assert_eq!(input.pretty_txn().unwrap(), expected);
}

#[test]
fn coinbase_draw_equal_to_coinbase_is_skipped() {
    let mut input = mk_input();
    // the zero coinbase drawn again: a skip
    let r = EVMInput::coinbase(&mut input, Address { bytes: vec![0u8; 20] });
    assert_eq!(r, MutationResult::Skipped);
    // a fresh draw lands in the coinbase field only
    let r = EVMInput::coinbase(&mut input, addr(0x44));
    assert_eq!(r, MutationResult::Mutated);
    assert_eq!(input.env.block.coinbase.bytes, vec![0x44u8; 20]);
    assert_eq!(input.caller.bytes, vec![0x11u8; 20]);
}

#[test]
fn env_mutation_applies_the_chosen_mutator() {
    let mut input = mk_input();
    input.access_pattern.timestamp = true;
    // the only enabled mutator is the timestamp: index 0 selects it
    let mut mutated = vec![0u8; 32];
    mutated[31] = 0x77;
    let r = input.mutate_env_with_access_pattern(0, addr(0x55), &mutated, MutationResult::Mutated);
    assert_eq!(r, MutationResult::Mutated);
    assert_eq!(input.env.block.timestamp.bytes, mutated);
    // a skipped byte-mutation is passed through and changes nothing
    let r = input.mutate_env_with_access_pattern(0, addr(0x55), &mutated, MutationResult::Skipped);
    assert_eq!(r, MutationResult::Skipped);
    assert_eq!(input.env.block.timestamp.bytes, mutated);
}

#[test]
fn synchronous_env_payload_reverses_addresses() {
    let mut input = mk_input();
    input.caller = Address {
        bytes: (0u8..20).collect(),
    };
    let (caller, to, ts, num) = input.evm_env_payload();
    let reversed: Vec<u8> = (0u8..20).rev().collect();
    assert_eq!(caller, reversed);
    assert_eq!(to, vec![0x22u8; 20]);
    assert_eq!(ts, vec![0u8; 32]);
    assert_eq!(num, vec![0u8; 32]);
}
