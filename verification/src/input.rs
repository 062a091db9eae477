use vstd::prelude::*;

use crate::word::{spec_reversed, Address, Word};

verus! {

// The fuzz-input record: one transaction to execute, with its blockchain
// environment, access pattern and staged VM state.  The mutation-engine
// primitives — the shared byte mutator, the random-number source, the
// corpus — are outside collaborators: every decision that depends on them
// takes their outcome as an argument, so the record's handling of each
// outcome is verified for all of them.

/// Input kinds.  `Liquidate` is kept for decoding older corpora and is
/// never produced.
#[derive(PartialEq, Eq, Structural, Clone, Copy, Debug)]
pub enum EVMInputTy {
    /// A normal transaction
    ABI,
    /// A flashloan transaction
    Borrow,
    /// [Deprecated] A liquidation transaction
    Liquidate,
}

/// What a mutation did to the record.
#[derive(PartialEq, Eq, Structural, Clone, Copy, Debug)]
pub enum MutationResult {
    Mutated,
    Skipped,
}

/// Which environment components the analyzed function read; only those
/// mutators are enabled.
pub struct AccessPattern {
    pub caller: bool,
    /// Addresses whose balance was read.
    pub balance: Vec<Address>,
    pub call_value: bool,
    pub gas_price: bool,
    pub basefee: bool,
    pub timestamp: bool,
    pub coinbase: bool,
    pub gas_limit: bool,
    pub number: bool,
    pub chain_id: bool,
    pub prevrandao: bool,
}

impl AccessPattern {
    pub fn new() -> (r: AccessPattern)
        ensures
            !r.caller && r.balance@.len() == 0 && !r.call_value && !r.gas_price && !r.basefee
                && !r.timestamp && !r.coinbase && !r.gas_limit && !r.number && !r.chain_id
                && !r.prevrandao,
    {
        AccessPattern {
            caller: false,
            balance: Vec::new(),
            call_value: false,
            gas_price: false,
            basefee: false,
            timestamp: false,
            coinbase: false,
            gas_limit: false,
            number: false,
            chain_id: false,
            prevrandao: false,
        }
    }
}

/// Block-level environment of the transaction.
pub struct BlockEnv {
    pub basefee: Word,
    pub timestamp: Word,
    pub coinbase: Address,
    pub gas_limit: Word,
    pub number: Word,
    pub prevrandao: Word,
}

/// Chain configuration.
pub struct CfgEnv {
    pub chain_id: Word,
}

/// Transaction-level environment.
pub struct TxEnv {
    pub gas_price: Word,
}

/// The full execution environment handed to the VM.
pub struct Env {
    pub block: BlockEnv,
    pub cfg: CfgEnv,
    pub tx: TxEnv,
}

impl Env {
    pub open spec fn wf(&self) -> bool {
        &&& self.block.basefee.wf()
        &&& self.block.timestamp.wf()
        &&& self.block.coinbase.wf()
        &&& self.block.gas_limit.wf()
        &&& self.block.number.wf()
        &&& self.block.prevrandao.wf()
        &&& self.cfg.chain_id.wf()
        &&& self.tx.gas_price.wf()
    }

    pub fn new_zero() -> (r: Env)
        ensures
            r.wf(),
    {
        Env {
            block: BlockEnv {
                basefee: Word::zero(),
                timestamp: Word::zero(),
                coinbase: Address { bytes: zero_bytes(20) },
                gas_limit: Word::zero(),
                number: Word::zero(),
                prevrandao: Word::zero(),
            },
            cfg: CfgEnv { chain_id: Word::zero() },
            tx: TxEnv { gas_price: Word::zero() },
        }
    }
}

/// `n` zero bytes.
pub fn zero_bytes(n: usize) -> (r: Vec<u8>)
    ensures
        r@ == Seq::new(n as nat, |i: int| 0u8),
{
    let mut b: Vec<u8> = Vec::new();
    let mut i: usize = 0;
    while i < n
        invariant
            i <= n,
            b@ =~= Seq::new(i as nat, |j: int| 0u8),
        decreases n - i,
    {
        b.push(0u8);
        i = i + 1;
    }
    proof {
        assert(b@ =~= Seq::new(n as nat, |i: int| 0u8));
    }
    b
}

/// The ABI-structured payload: its encoded bytes (selector plus encoded
/// arguments) and the basic-type tag of each argument.
pub struct BoxedABI {
    pub bytes: Vec<u8>,
    pub basic_types: Vec<u8>,
    /// Size hint for a payload standing in for unknown post-execution
    /// output.
    pub unknown_size: usize,
}

impl BoxedABI {
    pub fn get_bytes(&self) -> (r: Vec<u8>)
        ensures
            r@ == self.bytes@,
    {
        copy_bytes(&self.bytes)
    }

    pub fn get_basic_types(&self) -> (r: Vec<u8>)
        ensures
            r@ == self.basic_types@,
    {
        copy_bytes(&self.basic_types)
    }
}

pub fn copy_bytes(v: &Vec<u8>) -> (r: Vec<u8>)
    ensures
        r@ == v@,
{
    let mut out: Vec<u8> = Vec::new();
    let mut i: usize = 0;
    while i < v.len()
        invariant
            i <= v@.len(),
            out@ =~= v@.subrange(0, i as int),
        decreases v@.len() - i,
    {
        out.push(v[i]);
        i = i + 1;
    }
    proof {
        assert(out@ =~= v@);
    }
    out
}

/// One storage slot of the target contract.
pub struct SlotPair {
    pub key: Word,
    pub value: Word,
}

/// The VM state a fuzz input starts from: the target contract's storage,
/// and the flashloan bookkeeping the scheduler reads.
pub struct EVMState {
    pub slots: Vec<SlotPair>,
    /// 512-bit big-endian amount earned through flashloans.
    pub flashloan_earned: Vec<u8>,
    /// 512-bit big-endian amount owed.
    pub flashloan_owed: Vec<u8>,
}

impl EVMState {
    pub open spec fn wf(&self) -> bool {
        &&& self.flashloan_earned@.len() == 64
        &&& self.flashloan_owed@.len() == 64
        &&& forall|i: int|
            0 <= i < self.slots@.len() ==> (#[trigger] self.slots@[i]).key.wf()
                && self.slots@[i].value.wf()
    }

    pub fn new() -> (r: EVMState)
        ensures
            r.wf(),
            r.slots@.len() == 0,
    {
        EVMState {
            slots: Vec::new(),
            flashloan_earned: zero_bytes(64),
            flashloan_owed: zero_bytes(64),
        }
    }
}

/// A versioned VM-state snapshot referenced from the corpus.
pub struct StagedVMState {
    pub state: EVMState,
    pub initialized: bool,
}

/// The fuzzer's unit of work.
pub struct EVMInput {
    /// Input type
    pub input_type: EVMInputTy,
    /// Caller address
    pub caller: Address,
    /// Contract address
    pub contract: Address,
    /// Input data in ABI format
    pub data: Option<BoxedABI>,
    /// Staged VM state
    pub sstate: StagedVMState,
    /// Staged VM state index in the corpus
    pub sstate_idx: usize,
    /// Transaction value in wei; its top 16 bytes stay zero
    pub txn_value: Option<Word>,
    /// Whether to resume execution from the last control leak
    pub step: bool,
    /// Environment (block, timestamp, etc.)
    pub env: Env,
    /// Access pattern
    pub access_pattern: AccessPattern,
    /// Percentage of the token amount in all callers' account to
    /// liquidate
    pub liquidation_percent: u8,
    /// If the ABI payload is empty, the raw input data
    pub direct_data: Vec<u8>,
    /// Additional random bytes for the mutator
    pub randomness: Vec<u8>,
    /// Execute the transaction this many times
    pub repeat: usize,
    /// Marshaled form for the foreign executor
    pub cu_data: Vec<u8>,
    pub is_cuda: bool,
    pub branch_distance: usize,
}

/// The encoded calldata of the payload, or nothing.
pub open spec fn spec_payload_bytes(i: EVMInput) -> Seq<u8> {
    match i.data {
        Some(d) => d.bytes@,
        None => Seq::empty(),
    }
}

/// The bytes actually sent: the ABI payload when there is one, the raw
/// direct data otherwise.
pub open spec fn spec_calldata(i: EVMInput) -> Seq<u8> {
    match i.data {
        Some(d) => d.bytes@,
        None => i.direct_data@,
    }
}

impl EVMInput {
    pub open spec fn wf(&self) -> bool {
        &&& self.caller.wf()
        &&& self.contract.wf()
        &&& self.env.wf()
        &&& self.sstate.state.wf()
        &&& match self.txn_value {
            Some(w) => w.wf(),
            None => true,
        }
        &&& self.liquidation_percent <= 100
    }

    /// Length of the ABI-encoded input; 0 without a payload.
    pub fn len(&self) -> (r: usize)
        ensures
            r == spec_payload_bytes(*self).len(),
    {
        match &self.data {
            Some(d) => d.bytes.len(),
            None => 0,
        }
    }

    /// The ABI-encoded input, empty without a payload.
    pub fn to_bytes(&self) -> (r: Vec<u8>)
        ensures
            r@ == spec_payload_bytes(*self),
    {
        match &self.data {
            Some(d) => d.get_bytes(),
            None => Vec::new(),
        }
    }

    /// The basic-type tag of each payload argument, empty without a
    /// payload.
    pub fn get_types_vec(&self) -> (r: Vec<u8>)
        ensures
            r@ == match self.data {
                Some(d) => d.basic_types@,
                None => Seq::<u8>::empty(),
            },
    {
        match &self.data {
            Some(d) => d.get_basic_types(),
            None => Vec::new(),
        }
    }

    /// The bytes sent to the contract: payload bytes, or the raw direct
    /// data.
    pub fn get_calldata(&self) -> (r: Vec<u8>)
        ensures
            r@ == spec_calldata(*self),
    {
        match &self.data {
            Some(d) => d.get_bytes(),
            None => copy_bytes(&self.direct_data),
        }
    }

    pub fn get_vm_env(&self) -> (r: &Env)
        ensures
            r == self.env,
    {
        &self.env
    }

    pub fn get_access_pattern(&self) -> (r: &AccessPattern)
        ensures
            r == self.access_pattern,
    {
        &self.access_pattern
    }

    pub fn get_txn_value(&self) -> (r: Option<Word>)
        ensures
            match (r, self.txn_value) {
                (Some(a), Some(b)) => a.bytes@ == b.bytes@,
                (None, None) => true,
                _ => false,
            },
    {
        match &self.txn_value {
            Some(w) => Some(Word { bytes: copy_bytes(&w.bytes) }),
            None => None,
        }
    }

    pub fn set_txn_value(&mut self, v: Word)
        ensures
            *final(self) == (EVMInput { txn_value: Some(v), ..*old(self) }),
    {
        self.txn_value = Some(v);
    }

    pub fn get_input_type(&self) -> (r: EVMInputTy)
        ensures
            r == self.input_type,
    {
        self.input_type
    }

    pub fn get_randomness(&self) -> (r: Vec<u8>)
        ensures
            r@ == self.randomness@,
    {
        copy_bytes(&self.randomness)
    }

    pub fn set_randomness(&mut self, v: Vec<u8>)
        ensures
            *final(self) == (EVMInput { randomness: v, ..*old(self) }),
    {
        self.randomness = v;
    }

    pub fn get_liquidation_percent(&self) -> (r: u8)
        ensures
            r == self.liquidation_percent,
    {
        self.liquidation_percent
    }

    /// The percentage is a share: at most 100.
    pub fn set_liquidation_percent(&mut self, v: u8)
        requires
            v <= 100,
        ensures
            *final(self) == (EVMInput { liquidation_percent: v, ..*old(self) }),
    {
        self.liquidation_percent = v;
    }

    pub fn get_repeat(&self) -> (r: usize)
        ensures
            r == self.repeat,
    {
        self.repeat
    }

    pub fn get_evm_addr(&self) -> (r: Address)
        ensures
            r.bytes@ == self.contract.bytes@,
    {
        self.contract.clone_addr()
    }

    pub fn get_caller(&self) -> (r: Address)
        ensures
            r.bytes@ == self.caller.bytes@,
    {
        self.caller.clone_addr()
    }

    pub fn set_caller(&mut self, caller: Address)
        ensures
            *final(self) == (EVMInput { caller: caller, ..*old(self) }),
    {
        self.caller = caller;
    }

    pub fn get_contract(&self) -> (r: Address)
        ensures
            r.bytes@ == self.contract.bytes@,
    {
        self.contract.clone_addr()
    }

    pub fn get_state(&self) -> (r: &EVMState)
        ensures
            r == self.sstate.state,
    {
        &self.sstate.state
    }

    pub fn set_staged_state(&mut self, state: StagedVMState, idx: usize)
        ensures
            *final(self) == (EVMInput { sstate: state, sstate_idx: idx, ..*old(self) }),
    {
        self.sstate = state;
        self.sstate_idx = idx;
    }

    pub fn get_state_idx(&self) -> (r: usize)
        ensures
            r == self.sstate_idx,
    {
        self.sstate_idx
    }

    pub fn get_staged_state(&self) -> (r: &StagedVMState)
        ensures
            r == self.sstate,
    {
        &self.sstate
    }

    /// Turn the record into a post-execution continuation: its payload
    /// stands for `out_size` bytes of unknown output.
    pub fn set_as_post_exec(&mut self, out_size: usize)
        ensures
            *final(self) == (EVMInput { data: final(self).data, ..*old(self) }),
            final(self).data is Some,
            final(self).data.unwrap().bytes@ == Seq::<u8>::empty(),
            final(self).data.unwrap().basic_types@ == Seq::<u8>::empty(),
            final(self).data.unwrap().unknown_size == out_size,
    {
        self.data = Some(
            BoxedABI { bytes: Vec::new(), basic_types: Vec::new(), unknown_size: out_size },
        );
    }

    pub fn is_step(&self) -> (r: bool)
        ensures
            r == self.step,
    {
        self.step
    }

    /// Entering or leaving step mode always clears the transaction
    /// value.
    pub fn set_step(&mut self, gate: bool)
        ensures
            *final(self) == (EVMInput { txn_value: None, step: gate, ..*old(self) }),
    {
        self.txn_value = None;
        self.step = gate;
    }

    pub fn get_distance(&self) -> (r: usize)
        ensures
            r == self.branch_distance,
    {
        self.branch_distance
    }

    pub fn set_distance(&mut self, distance: usize)
        ensures
            *final(self) == (EVMInput { branch_distance: distance, ..*old(self) }),
    {
        self.branch_distance = distance;
    }

    pub fn get_cuda_input(&self) -> (r: Vec<u8>)
        ensures
            r@ == self.cu_data@,
    {
        copy_bytes(&self.cu_data)
    }

    pub fn set_cuda_input(&mut self, status: bool)
        ensures
            *final(self) == (EVMInput { is_cuda: status, ..*old(self) }),
    {
        self.is_cuda = status;
    }

    pub fn get_direct_data(&self) -> (r: Vec<u8>)
        ensures
            r@ == self.direct_data@,
    {
        copy_bytes(&self.direct_data)
    }
}

/// Wrapper handing one serialized word to the shared byte mutator as a
/// mutable input.
pub struct MutatorInput {
    pub val_vec: Vec<u8>,
}

impl MutatorInput {
    pub fn new(val_vec: Vec<u8>) -> (r: MutatorInput)
        ensures
            r.val_vec@ == val_vec@,
    {
        MutatorInput { val_vec }
    }

    pub fn bytes(&self) -> (r: &Vec<u8>)
        ensures
            r@ == self.val_vec@,
    {
        &self.val_vec
    }
}

/// The environment mutators, one per mutable component.
#[derive(PartialEq, Eq, Structural, Clone, Copy, Debug)]
pub enum EnvMutatorKind {
    Caller,
    Balance,
    CallValue,
    GasPrice,
    Basefee,
    Timestamp,
    Coinbase,
    GasLimit,
    Number,
    ChainId,
    Prevrandao,
}

pub open spec fn spec_word_eq(a: Word, b: Word) -> bool {
    a.bytes@ == b.bytes@
}

pub open spec fn spec_addr_eq(a: Address, b: Address) -> bool {
    a.bytes@ == b.bytes@
}

pub open spec fn spec_opt_word_eq(a: Option<Word>, b: Option<Word>) -> bool {
    match (a, b) {
        (Some(x), Some(y)) => spec_word_eq(x, y),
        (None, None) => true,
        _ => false,
    }
}

/// All environment fields agree, except the one `k` is allowed to touch.
pub open spec fn spec_env_eq_except(a: Env, b: Env, k: EnvMutatorKind) -> bool {
    &&& (k != EnvMutatorKind::Basefee ==> spec_word_eq(a.block.basefee, b.block.basefee))
    &&& (k != EnvMutatorKind::Timestamp ==> spec_word_eq(a.block.timestamp, b.block.timestamp))
    &&& (k != EnvMutatorKind::Coinbase ==> spec_addr_eq(a.block.coinbase, b.block.coinbase))
    &&& (k != EnvMutatorKind::GasLimit ==> spec_word_eq(a.block.gas_limit, b.block.gas_limit))
    &&& (k != EnvMutatorKind::Number ==> spec_word_eq(a.block.number, b.block.number))
    &&& spec_word_eq(a.block.prevrandao, b.block.prevrandao)
    &&& (k != EnvMutatorKind::ChainId ==> spec_word_eq(a.cfg.chain_id, b.cfg.chain_id))
    &&& spec_word_eq(a.tx.gas_price, b.tx.gas_price)
}

/// The records agree on every component except the one `k` mutates:
/// an environment mutation touches only its own field.
pub open spec fn spec_eq_except(a: EVMInput, b: EVMInput, k: EnvMutatorKind) -> bool {
    &&& (k != EnvMutatorKind::Caller ==> spec_addr_eq(a.caller, b.caller))
    &&& (k != EnvMutatorKind::CallValue ==> spec_opt_word_eq(a.txn_value, b.txn_value))
    &&& spec_env_eq_except(a.env, b.env, k)
    &&& a.input_type == b.input_type
    &&& a.contract == b.contract
    &&& a.data == b.data
    &&& a.sstate == b.sstate
    &&& a.sstate_idx == b.sstate_idx
    &&& a.step == b.step
    &&& a.access_pattern == b.access_pattern
    &&& a.liquidation_percent == b.liquidation_percent
    &&& a.direct_data == b.direct_data
    &&& a.randomness == b.randomness
    &&& a.repeat == b.repeat
    &&& a.cu_data == b.cu_data
    &&& a.is_cuda == b.is_cuda
    &&& a.branch_distance == b.branch_distance
}

/// The environment mutators a record enables: exactly one for each
/// component its recorded access pattern reads, in this fixed order.
pub open spec fn spec_enabled_env_mutators(i: EVMInput) -> Seq<EnvMutatorKind> {
    let s = Seq::<EnvMutatorKind>::empty();
    let s = if i.access_pattern.caller {
        s.push(EnvMutatorKind::Caller)
    } else {
        s
    };
    let s = if i.access_pattern.balance.len() > 0 {
        s.push(EnvMutatorKind::Balance)
    } else {
        s
    };
    let s = if i.access_pattern.call_value {
        s.push(EnvMutatorKind::CallValue)
    } else {
        s
    };
    let s = if i.access_pattern.gas_price {
        s.push(EnvMutatorKind::GasPrice)
    } else {
        s
    };
    let s = if i.access_pattern.basefee {
        s.push(EnvMutatorKind::Basefee)
    } else {
        s
    };
    let s = if i.access_pattern.timestamp {
        s.push(EnvMutatorKind::Timestamp)
    } else {
        s
    };
    let s = if i.access_pattern.coinbase {
        s.push(EnvMutatorKind::Coinbase)
    } else {
        s
    };
    let s = if i.access_pattern.gas_limit {
        s.push(EnvMutatorKind::GasLimit)
    } else {
        s
    };
    let s = if i.access_pattern.number {
        s.push(EnvMutatorKind::Number)
    } else {
        s
    };
    let s = if i.access_pattern.chain_id {
        s.push(EnvMutatorKind::ChainId)
    } else {
        s
    };
    let s = if i.access_pattern.prevrandao {
        s.push(EnvMutatorKind::Prevrandao)
    } else {
        s
    };
    s
}

/// Which mutation path a record takes for a given random draw.
#[derive(PartialEq, Eq, Structural, Clone, Copy, Debug)]
pub enum MutateRoute {
    /// Mutate the environment under the access pattern.
    Environment,
    /// Mutate the ABI payload.
    Payload,
    /// Nothing to mutate.
    Skip,
}

/// The route the selection takes: the environment with
/// probability about 13 percent or when there is no payload; otherwise
/// the payload.
pub open spec fn spec_mutation_route(i: EVMInput, rand_val: u64) -> MutateRoute {
    if !i.is_cuda && (rand_val % 100 > 87 || i.data is None) {
        MutateRoute::Environment
    } else if i.data is Some {
        MutateRoute::Payload
    } else {
        MutateRoute::Skip
    }
}

/// What applying the environment mutator `k` with the given materials
/// does: the sub-mutators' exact contracts, gathered in one place so the
/// selection entry points surface them.
pub open spec fn spec_env_mutation_post(
    pre: EVMInput,
    post: EVMInput,
    r: MutationResult,
    k: EnvMutatorKind,
    drawn: Address,
    mutated: Seq<u8>,
    outcome: MutationResult,
) -> bool {
    &&& spec_eq_except(pre, post, k)
    &&& (r == MutationResult::Skipped ==> post == pre)
    &&& ((k == EnvMutatorKind::Balance || k == EnvMutatorKind::GasPrice || k
        == EnvMutatorKind::Prevrandao) ==> r == MutationResult::Skipped)
    &&& (k == EnvMutatorKind::Caller ==> if drawn.bytes@ == pre.caller.bytes@ {
        r == MutationResult::Skipped
    } else {
        r == MutationResult::Mutated && post.caller.bytes@ == drawn.bytes@
    })
    &&& (k == EnvMutatorKind::Coinbase ==> if drawn.bytes@ == pre.env.block.coinbase.bytes@ {
        r == MutationResult::Skipped
    } else {
        r == MutationResult::Mutated && post.env.block.coinbase.bytes@ == drawn.bytes@
    })
    &&& ((k == EnvMutatorKind::CallValue || k == EnvMutatorKind::Basefee || k
        == EnvMutatorKind::Timestamp || k == EnvMutatorKind::GasLimit || k
        == EnvMutatorKind::Number || k == EnvMutatorKind::ChainId) ==> r == outcome)
    &&& (outcome == MutationResult::Mutated ==> {
        &&& (k == EnvMutatorKind::Basefee ==> post.env.block.basefee.bytes@ == mutated)
        &&& (k == EnvMutatorKind::Timestamp ==> post.env.block.timestamp.bytes@ == mutated)
        &&& (k == EnvMutatorKind::GasLimit ==> post.env.block.gas_limit.bytes@ == mutated)
        &&& (k == EnvMutatorKind::Number ==> post.env.block.number.bytes@ == mutated)
        &&& (k == EnvMutatorKind::ChainId ==> post.env.cfg.chain_id.bytes@ == mutated)
        &&& (k == EnvMutatorKind::CallValue ==> post.txn_value is Some
            && post.txn_value.unwrap().bytes@ == Seq::new(16, |i: int| 0u8) + mutated.subrange(
            16,
            32,
        ))
    })
}

impl EVMInput {
    /// The enabled environment mutators, in their fixed order.
    pub fn enabled_env_mutators(&self) -> (r: Vec<EnvMutatorKind>)
        ensures
            r@ == spec_enabled_env_mutators(*self),
    {
        let mut v: Vec<EnvMutatorKind> = Vec::new();
        if self.access_pattern.caller {
            v.push(EnvMutatorKind::Caller);
        }
        if self.access_pattern.balance.len() > 0 {
            v.push(EnvMutatorKind::Balance);
        }
        if self.access_pattern.call_value {
            v.push(EnvMutatorKind::CallValue);
        }
        if self.access_pattern.gas_price {
            v.push(EnvMutatorKind::GasPrice);
        }
        if self.access_pattern.basefee {
            v.push(EnvMutatorKind::Basefee);
        }
        if self.access_pattern.timestamp {
            v.push(EnvMutatorKind::Timestamp);
        }
        if self.access_pattern.coinbase {
            v.push(EnvMutatorKind::Coinbase);
        }
        if self.access_pattern.gas_limit {
            v.push(EnvMutatorKind::GasLimit);
        }
        if self.access_pattern.number {
            v.push(EnvMutatorKind::Number);
        }
        if self.access_pattern.chain_id {
            v.push(EnvMutatorKind::ChainId);
        }
        if self.access_pattern.prevrandao {
            v.push(EnvMutatorKind::Prevrandao);
        }
        proof {
            assert(v@ =~= spec_enabled_env_mutators(*self));
        }
        v
    }

    /// Mutating the prevrandao field is not supported yet: always a
    /// skip, leaving the record untouched.
    pub fn prevrandao(input: &mut EVMInput) -> (r: MutationResult)
        ensures
            r == MutationResult::Skipped,
            *final(input) == *old(input),
    {
        MutationResult::Skipped
    }

    /// Mutating the gas price is not supported yet.
    pub fn gas_price(input: &mut EVMInput) -> (r: MutationResult)
        ensures
            r == MutationResult::Skipped,
            *final(input) == *old(input),
    {
        MutationResult::Skipped
    }

    /// Mutating balances is not supported yet.
    pub fn balance(input: &mut EVMInput) -> (r: MutationResult)
        ensures
            r == MutationResult::Skipped,
            *final(input) == *old(input),
    {
        MutationResult::Skipped
    }

    /// Replace the caller by one drawn from the corpus; a draw equal to
    /// the current caller is a skip and leaves the record untouched.
    pub fn caller(input: &mut EVMInput, drawn: Address) -> (r: MutationResult)
        ensures
            drawn.bytes@ == old(input).caller.bytes@ ==> (r == MutationResult::Skipped && *final(input) == *old(input)),
            drawn.bytes@ != old(input).caller.bytes@ ==> (r == MutationResult::Mutated && final(input).caller.bytes@ == drawn.bytes@ && spec_eq_except(
                *old(input),
                *final(input),
                EnvMutatorKind::Caller,
            )),
    {
        if drawn.eq_addr(&input.caller) {
            MutationResult::Skipped
        } else {
            input.caller = drawn;
            MutationResult::Mutated
        }
    }

    /// Replace the coinbase by a drawn address; a draw equal to the
    /// current coinbase is a skip.
    pub fn coinbase(input: &mut EVMInput, drawn: Address) -> (r: MutationResult)
        ensures
            drawn.bytes@ == old(input).env.block.coinbase.bytes@ ==> (r
                == MutationResult::Skipped && *final(input) == *old(input)),
            drawn.bytes@ != old(input).env.block.coinbase.bytes@ ==> (r
                == MutationResult::Mutated && final(input).env.block.coinbase.bytes@
                == drawn.bytes@ && spec_eq_except(
                *old(input),
                *final(input),
                EnvMutatorKind::Coinbase,
            )),
    {
        if drawn.eq_addr(&input.env.block.coinbase) {
            MutationResult::Skipped
        } else {
            input.env.block.coinbase = drawn;
            MutationResult::Mutated
        }
    }

    /// The 32 big-endian bytes handed to the shared byte mutator for the
    /// call value: the current value, or zero without one.
    pub fn call_value_seed(&self) -> (r: Vec<u8>)
        requires
            self.wf(),
        ensures
            r@.len() == 32,
            match self.txn_value {
                Some(w) => r@ == w.bytes@,
                None => r@ == Seq::new(32, |i: int| 0u8),
            },
    {
        match &self.txn_value {
            Some(w) => copy_bytes(&w.bytes),
            None => zero_bytes(32),
        }
    }

    /// Apply the byte mutator's outcome to the call value.  On a
    /// mutation, the top 16 bytes are forced to zero — no value exceeds
    /// 2^128 wei — before the value is stored.
    pub fn call_value(input: &mut EVMInput, mutated: &Vec<u8>, outcome: MutationResult) -> (r:
        MutationResult)
        requires
            mutated@.len() == 32,
        ensures
            outcome == MutationResult::Skipped ==> (r == MutationResult::Skipped && *final(input)
                == *old(input)),
            outcome == MutationResult::Mutated ==> (r == MutationResult::Mutated && {
                &&& final(input).txn_value is Some
                &&& final(input).txn_value.unwrap().bytes@ == Seq::new(16, |i: int| 0u8)
                    + mutated@.subrange(16, 32)
                &&& final(input).txn_value.unwrap().bytes@.subrange(0, 16) == Seq::new(
                    16,
                    |i: int| 0u8,
                )
                &&& spec_eq_except(*old(input), *final(input), EnvMutatorKind::CallValue)
            }),
    {
        if let MutationResult::Skipped = outcome {
            return MutationResult::Skipped;
        }
        let mut v = zero_bytes(16);
        let mut i: usize = 16;
        while i < 32
            invariant
                16 <= i <= 32,
                mutated@.len() == 32,
                v@ =~= Seq::new(16, |j: int| 0u8) + mutated@.subrange(16, i as int),
            decreases 32 - i,
        {
            v.push(mutated[i]);
            i = i + 1;
        }
        proof {
            assert(v@ =~= Seq::new(16, |j: int| 0u8) + mutated@.subrange(16, 32));
            assert(v@.subrange(0, 16) =~= Seq::new(16, |j: int| 0u8));
        }
        input.txn_value = Some(Word { bytes: v });
        MutationResult::Mutated
    }

    /// Apply the byte mutator's outcome to the basefee.
    pub fn basefee(input: &mut EVMInput, mutated: &Vec<u8>, outcome: MutationResult) -> (r:
        MutationResult)
        requires
            mutated@.len() == 32,
        ensures
            outcome == MutationResult::Skipped ==> (r == MutationResult::Skipped && *final(input)
                == *old(input)),
            outcome == MutationResult::Mutated ==> (r == MutationResult::Mutated && final(input).env.block.basefee.bytes@ == mutated@ && spec_eq_except(
                *old(input),
                *final(input),
                EnvMutatorKind::Basefee,
            )),
    {
        if let MutationResult::Skipped = outcome {
            return MutationResult::Skipped;
        }
        input.env.block.basefee = Word { bytes: copy_bytes(mutated) };
        MutationResult::Mutated
    }

    /// Apply the byte mutator's outcome to the timestamp.
    pub fn timestamp(input: &mut EVMInput, mutated: &Vec<u8>, outcome: MutationResult) -> (r:
        MutationResult)
        requires
            mutated@.len() == 32,
        ensures
            outcome == MutationResult::Skipped ==> (r == MutationResult::Skipped && *final(input)
                == *old(input)),
            outcome == MutationResult::Mutated ==> (r == MutationResult::Mutated && final(input).env.block.timestamp.bytes@ == mutated@ && spec_eq_except(
                *old(input),
                *final(input),
                EnvMutatorKind::Timestamp,
            )),
    {
        if let MutationResult::Skipped = outcome {
            return MutationResult::Skipped;
        }
        input.env.block.timestamp = Word { bytes: copy_bytes(mutated) };
        MutationResult::Mutated
    }

    /// Apply the byte mutator's outcome to the gas limit.
    pub fn gas_limit(input: &mut EVMInput, mutated: &Vec<u8>, outcome: MutationResult) -> (r:
        MutationResult)
        requires
            mutated@.len() == 32,
        ensures
            outcome == MutationResult::Skipped ==> (r == MutationResult::Skipped && *final(input)
                == *old(input)),
            outcome == MutationResult::Mutated ==> (r == MutationResult::Mutated && final(input).env.block.gas_limit.bytes@ == mutated@ && spec_eq_except(
                *old(input),
                *final(input),
                EnvMutatorKind::GasLimit,
            )),
    {
        if let MutationResult::Skipped = outcome {
            return MutationResult::Skipped;
        }
        input.env.block.gas_limit = Word { bytes: copy_bytes(mutated) };
        MutationResult::Mutated
    }

    /// Apply the byte mutator's outcome to the block number.
    pub fn number(input: &mut EVMInput, mutated: &Vec<u8>, outcome: MutationResult) -> (r:
        MutationResult)
        requires
            mutated@.len() == 32,
        ensures
            outcome == MutationResult::Skipped ==> (r == MutationResult::Skipped && *final(input)
                == *old(input)),
            outcome == MutationResult::Mutated ==> (r == MutationResult::Mutated && final(input).env.block.number.bytes@ == mutated@ && spec_eq_except(
                *old(input),
                *final(input),
                EnvMutatorKind::Number,
            )),
    {
        if let MutationResult::Skipped = outcome {
            return MutationResult::Skipped;
        }
        input.env.block.number = Word { bytes: copy_bytes(mutated) };
        MutationResult::Mutated
    }

    /// Apply the byte mutator's outcome to the chain id.
    pub fn chain_id(input: &mut EVMInput, mutated: &Vec<u8>, outcome: MutationResult) -> (r:
        MutationResult)
        requires
            mutated@.len() == 32,
        ensures
            outcome == MutationResult::Skipped ==> (r == MutationResult::Skipped && *final(input)
                == *old(input)),
            outcome == MutationResult::Mutated ==> (r == MutationResult::Mutated && final(input).env.cfg.chain_id.bytes@ == mutated@ && spec_eq_except(
                *old(input),
                *final(input),
                EnvMutatorKind::ChainId,
            )),
    {
        if let MutationResult::Skipped = outcome {
            return MutationResult::Skipped;
        }
        input.env.cfg.chain_id = Word { bytes: copy_bytes(mutated) };
        MutationResult::Mutated
    }

    /// Pick one enabled environment mutator uniformly by `rand_index`
    /// and apply it, with the byte mutator's outcome and a drawn address
    /// as the outside materials.  With nothing enabled the record is
    /// untouched; a skip never changes the record; a mutation touches
    /// only the chosen component.
    pub fn mutate_env_with_access_pattern(
        &mut self,
        rand_index: u64,
        drawn: Address,
        mutated: &Vec<u8>,
        outcome: MutationResult,
    ) -> (r: MutationResult)
        requires
            mutated@.len() == 32,
        ensures
            spec_enabled_env_mutators(*old(self)).len() == 0 ==> (r == MutationResult::Skipped
                && *final(self) == *old(self)),
            r == MutationResult::Skipped ==> *final(self) == *old(self),
            spec_enabled_env_mutators(*old(self)).len() > 0 ==> spec_env_mutation_post(
                *old(self),
                *final(self),
                r,
                spec_enabled_env_mutators(*old(self))[rand_index as int % spec_enabled_env_mutators(
                    *old(self),
                ).len() as int],
                drawn,
                mutated@,
                outcome,
            ),
    {
        let kinds = self.enabled_env_mutators();
        if kinds.len() == 0 {
            return MutationResult::Skipped;
        }
        let idx = (rand_index % (kinds.len() as u64)) as usize;
        let kind = kinds[idx];
        proof {
            assert(kinds@[idx as int] == spec_enabled_env_mutators(*old(self))[rand_index as int
                % spec_enabled_env_mutators(*old(self)).len() as int]);
        }
        match kind {
            EnvMutatorKind::Caller => EVMInput::caller(self, drawn),
            EnvMutatorKind::Balance => EVMInput::balance(self),
            EnvMutatorKind::CallValue => EVMInput::call_value(self, mutated, outcome),
            EnvMutatorKind::GasPrice => EVMInput::gas_price(self),
            EnvMutatorKind::Basefee => EVMInput::basefee(self, mutated, outcome),
            EnvMutatorKind::Timestamp => EVMInput::timestamp(self, mutated, outcome),
            EnvMutatorKind::Coinbase => EVMInput::coinbase(self, drawn),
            EnvMutatorKind::GasLimit => EVMInput::gas_limit(self, mutated, outcome),
            EnvMutatorKind::Number => EVMInput::number(self, mutated, outcome),
            EnvMutatorKind::ChainId => EVMInput::chain_id(self, mutated, outcome),
            EnvMutatorKind::Prevrandao => EVMInput::prevrandao(self),
        }
    }

    /// The mutation path for a random draw: the environment with
    /// probability about 13 percent or when no payload exists, otherwise
    /// the payload; nothing when neither applies.
    pub fn mutation_route(&self, rand_val: u64) -> (r: MutateRoute)
        ensures
            r == spec_mutation_route(*self, rand_val),
    {
        if !self.is_cuda && (rand_val % 100 > 87 || matches!(&self.data, None)) {
            MutateRoute::Environment
        } else if matches!(&self.data, Some(_)) {
            MutateRoute::Payload
        } else {
            MutateRoute::Skip
        }
    }

    /// One mutation step.  The route is decided by `rand_val`; an
    /// environment mutation is applied here from the given materials.
    /// A payload route returns `None` with the record untouched — the
    /// type-directed payload mutator, an outside collaborator, acts on
    /// the payload and reports its own result.
    pub fn mutate(
        &mut self,
        rand_val: u64,
        rand_index: u64,
        drawn: Address,
        mutated: &Vec<u8>,
        outcome: MutationResult,
    ) -> (r: Option<MutationResult>)
        requires
            mutated@.len() == 32,
        ensures
            (spec_mutation_route(*old(self), rand_val) == MutateRoute::Payload) <==> r is None,
            r is None ==> *final(self) == *old(self),
            spec_mutation_route(*old(self), rand_val) == MutateRoute::Skip ==> (r == Some(
                MutationResult::Skipped,
            ) && *final(self) == *old(self)),
            r == Some(MutationResult::Skipped) ==> *final(self) == *old(self),
            spec_mutation_route(*old(self), rand_val) == MutateRoute::Environment ==> r is Some,
            spec_mutation_route(*old(self), rand_val) == MutateRoute::Environment
                && spec_enabled_env_mutators(*old(self)).len() > 0 ==> spec_env_mutation_post(
                *old(self),
                *final(self),
                r.unwrap(),
                spec_enabled_env_mutators(*old(self))[rand_index as int % spec_enabled_env_mutators(
                    *old(self),
                ).len() as int],
                drawn,
                mutated@,
                outcome,
            ),
    {
        let route = self.mutation_route(rand_val);
        match route {
            MutateRoute::Environment => Some(
                self.mutate_env_with_access_pattern(rand_index, drawn, mutated, outcome),
            ),
            MutateRoute::Payload => None,
            MutateRoute::Skip => Some(MutationResult::Skipped),
        }
    }
}

/// The concatenated little-endian `(key, value)` pairs of a storage
/// snapshot, as the foreign executor's storage loader expects them.
pub open spec fn spec_storage_payload(slots: Seq<SlotPair>) -> Seq<u8>
    decreases slots.len(),
{
    if slots.len() == 0 {
        Seq::empty()
    } else {
        spec_storage_payload(slots.drop_last()) + spec_reversed(slots.last().key.bytes@)
            + spec_reversed(slots.last().value.bytes@)
    }
}

impl EVMInput {
    /// The environment marshaled for the foreign executor: the contract
    /// address byte-reversed, and timestamp and block number little-
    /// endian — the EVM's big-endian words flipped once, here.
    pub fn cu_env_payload(&self) -> (r: (Vec<u8>, Vec<u8>, Vec<u8>))
        requires
            self.wf(),
        ensures
            r.0@ == spec_reversed(self.contract.bytes@),
            r.1@ == spec_reversed(self.env.block.timestamp.bytes@),
            r.2@ == spec_reversed(self.env.block.number.bytes@),
    {
        (
            self.contract.to_le_bytes(),
            self.env.block.timestamp.to_le_bytes(),
            self.env.block.number.to_le_bytes(),
        )
    }

    /// The seed marshaled for the foreign executor: caller reversed,
    /// call value little-endian (zero without one), and the calldata.
    pub fn cu_seed_payload(&self) -> (r: (Vec<u8>, Vec<u8>, Vec<u8>))
        requires
            self.wf(),
        ensures
            r.0@ == spec_reversed(self.caller.bytes@),
            match self.txn_value {
                Some(w) => r.1@ == spec_reversed(w.bytes@),
                None => r.1@ == Seq::new(32, |i: int| 0u8),
            },
            r.2@ == spec_calldata(*self),
    {
        let value_le = match &self.txn_value {
            Some(w) => w.to_le_bytes(),
            None => {
                let z = zero_bytes(32);
                proof {
                    assert(z@ =~= Seq::new(32, |i: int| 0u8));
                }
                z
            },
        };
        (self.caller.to_le_bytes(), value_le, self.get_calldata())
    }

    /// The seed header is 68 bytes; a seed whose calldata pushes past
    /// the configured seed size is reported oversize (the runner
    /// truncates it).
    pub fn cu_seed_oversize(&self, seed_size: usize) -> (r: bool)
        ensures
            r == (68 + spec_calldata(*self).len() > seed_size),
    {
        let cl = match &self.data {
            Some(d) => d.bytes.len(),
            None => self.direct_data.len(),
        };
        if cl > usize::MAX - 68 {
            true
        } else {
            68 + cl > seed_size
        }
    }

    /// The storage snapshot marshaled for the foreign executor: each
    /// slot's key and value little-endian, concatenated, with the slot
    /// count.
    pub fn cu_storage_payload(&self) -> (r: (Vec<u8>, usize))
        requires
            self.wf(),
        ensures
            r.0@ == spec_storage_payload(self.sstate.state.slots@),
            r.1 == self.sstate.state.slots@.len(),
    {
        let slots = &self.sstate.state.slots;
        let mut out: Vec<u8> = Vec::new();
        let mut i: usize = 0;
        proof {
            assert(slots@.take(0) =~= Seq::<SlotPair>::empty());
        }
        while i < slots.len()
            invariant
                i <= slots@.len(),
                self.wf(),
                slots@ == self.sstate.state.slots@,
                out@ == spec_storage_payload(slots@.take(i as int)),
            decreases slots@.len() - i,
        {
            proof {
                assert(slots@.take(i as int + 1).drop_last() =~= slots@.take(i as int));
                assert(slots@.take(i as int + 1).last() == slots@[i as int]);
                assert(slots@[i as int].key.wf() && slots@[i as int].value.wf());
            }
            let mut kb = slots[i].key.to_le_bytes();
            let mut vb = slots[i].value.to_le_bytes();
            out.append(&mut kb);
            out.append(&mut vb);
            i = i + 1;
        }
        proof {
            assert(slots@.take(slots@.len() as int) =~= slots@);
        }
        (out, slots.len())
    }

    /// The environment marshaled for the synchronous executor call: as
    /// everywhere across the foreign boundary, the caller and contract
    /// addresses byte-reversed, timestamp and block number
    /// little-endian.
    pub fn evm_env_payload(&self) -> (r: (Vec<u8>, Vec<u8>, Vec<u8>, Vec<u8>))
        requires
            self.wf(),
        ensures
            r.0@ == spec_reversed(self.caller.bytes@),
            r.1@ == spec_reversed(self.contract.bytes@),
            r.2@ == spec_reversed(self.env.block.timestamp.bytes@),
            r.3@ == spec_reversed(self.env.block.number.bytes@),
    {
        (
            self.caller.to_le_bytes(),
            self.contract.to_le_bytes(),
            self.env.block.timestamp.to_le_bytes(),
            self.env.block.number.to_le_bytes(),
        )
    }
}

/// The behaviours a fuzzable transaction input offers the harness.
pub trait EVMInputT {
    fn get_types_vec(&self) -> Vec<u8>;

    fn to_bytes(&self) -> Vec<u8>;

    fn get_vm_env<'a>(&'a self) -> &'a Env;

    fn get_access_pattern<'a>(&'a self) -> &'a AccessPattern;

    fn get_txn_value(&self) -> Option<Word>;

    fn set_txn_value(&mut self, v: Word);

    fn get_input_type(&self) -> EVMInputTy;

    fn get_randomness(&self) -> Vec<u8>;

    fn set_randomness(&mut self, v: Vec<u8>);

    fn get_liquidation_percent(&self) -> u8;

    fn set_liquidation_percent(&mut self, v: u8)
        requires
            v <= 100,
    ;

    fn get_repeat(&self) -> usize;

    fn get_evm_addr(&self) -> Address;

    fn get_calldata(&self) -> Vec<u8>;

    fn get_distance(&self) -> usize;

    fn set_distance(&mut self, distance: usize);

    fn set_cuda_input(&mut self, status: bool);
}

impl EVMInputT for EVMInput {
    fn get_types_vec(&self) -> Vec<u8> {
        EVMInput::get_types_vec(self)
    }

    fn to_bytes(&self) -> Vec<u8> {
        EVMInput::to_bytes(self)
    }

    fn get_vm_env<'a>(&'a self) -> &'a Env {
        EVMInput::get_vm_env(self)
    }

    fn get_access_pattern<'a>(&'a self) -> &'a AccessPattern {
        EVMInput::get_access_pattern(self)
    }

    fn get_txn_value(&self) -> Option<Word> {
        EVMInput::get_txn_value(self)
    }

    fn set_txn_value(&mut self, v: Word) {
        EVMInput::set_txn_value(self, v)
    }

    fn get_input_type(&self) -> EVMInputTy {
        EVMInput::get_input_type(self)
    }

    fn get_randomness(&self) -> Vec<u8> {
        EVMInput::get_randomness(self)
    }

    fn set_randomness(&mut self, v: Vec<u8>) {
        EVMInput::set_randomness(self, v)
    }

    fn get_liquidation_percent(&self) -> u8 {
        EVMInput::get_liquidation_percent(self)
    }

    fn set_liquidation_percent(&mut self, v: u8) {
        EVMInput::set_liquidation_percent(self, v)
    }

    fn get_repeat(&self) -> usize {
        EVMInput::get_repeat(self)
    }

    fn get_evm_addr(&self) -> Address {
        EVMInput::get_evm_addr(self)
    }

    fn get_calldata(&self) -> Vec<u8> {
        EVMInput::get_calldata(self)
    }

    fn get_distance(&self) -> usize {
        EVMInput::get_distance(self)
    }

    fn set_distance(&mut self, distance: usize) {
        EVMInput::set_distance(self, distance)
    }

    fn set_cuda_input(&mut self, status: bool) {
        EVMInput::set_cuda_input(self, status)
    }
}


/// The bytes of ` with 0x`.
pub open spec fn spec_lit_with() -> Seq<u8> {
    seq![0x20u8, 0x77u8, 0x69u8, 0x74u8, 0x68u8, 0x20u8, 0x30u8, 0x78u8]
}

/// The bytes of ` eth`.
pub open spec fn spec_lit_eth() -> Seq<u8> {
    seq![0x20u8, 0x65u8, 0x74u8, 0x68u8]
}

/// The bytes of ` with no eth`.
pub open spec fn spec_lit_no_eth() -> Seq<u8> {
    seq![
        0x20u8,
        0x77u8,
        0x69u8,
        0x74u8,
        0x68u8,
        0x20u8,
        0x6eu8,
        0x6fu8,
        0x20u8,
        0x65u8,
        0x74u8,
        0x68u8,
    ]
}

/// The bytes of `, liq percent: `.
pub open spec fn spec_lit_liq() -> Seq<u8> {
    seq![
        0x2cu8,
        0x20u8,
        0x6cu8,
        0x69u8,
        0x71u8,
        0x20u8,
        0x70u8,
        0x65u8,
        0x72u8,
        0x63u8,
        0x65u8,
        0x6eu8,
        0x74u8,
        0x3au8,
        0x20u8,
    ]
}

/// The display form's bytes: the hex calldata, the transaction value in
/// wei (hex, or ` with no eth`), and the liquidation percentage.
pub open spec fn spec_pretty_bytes(i: EVMInput) -> Seq<u8> {
    crate::hexutil::spec_encode_hex(spec_calldata(i)) + (match i.txn_value {
        Some(w) => spec_lit_with() + crate::hexutil::spec_encode_hex(w.bytes@) + spec_lit_eth(),
        None => spec_lit_no_eth(),
    }) + spec_lit_liq() + crate::fingerprint::spec_dec_bytes(i.liquidation_percent as nat)
}

/// Append literal bytes known to be ASCII.
fn push_ascii_lit(out: &mut Vec<u8>, lit: &[u8])
    requires
        forall|i: int| 0 <= i < lit@.len() ==> (#[trigger] lit@[i]) < 0x80,
    ensures
        final(out)@ == old(out)@ + lit@,
{
    let mut i: usize = 0;
    while i < lit.len()
        invariant
            i <= lit@.len(),
            out@ =~= old(out)@ + lit@.subrange(0, i as int),
        decreases lit@.len() - i,
    {
        out.push(lit[i]);
        i = i + 1;
    }
    proof {
        assert(out@ =~= old(out)@ + lit@);
    }
}

impl EVMInput {
    /// Display form of the transaction: its calldata hex-encoded, the
    /// transaction value in wei, and the liquidation percentage.  A
    /// deprecated liquidation input without a payload has none.
    pub fn pretty_txn(&self) -> (r: Option<String>)
        ensures
            (self.input_type == EVMInputTy::Liquidate && self.data is None) <==> r is None,
            r is Some ==> r.unwrap()@ == crate::fingerprint::spec_ascii_chars(
                spec_pretty_bytes(*self),
            ),
    {
        if matches!(&self.data, None) && matches!(self.input_type, EVMInputTy::Liquidate) {
            return None;
        }
        let cd = self.get_calldata();
        let mut b = crate::hexutil::encode_hex(cd.as_slice());
        proof {
            crate::hexutil::lemma_hex_round_trip(cd@);
        }
        match &self.txn_value {
            Some(w) => {
                let lit1: [u8; 8] = [0x20, 0x77, 0x69, 0x74, 0x68, 0x20, 0x30, 0x78];
                proof {
                    assert(lit1@ =~= spec_lit_with());
                }
                push_ascii_lit(&mut b, lit1.as_slice());
                let mut vh = crate::hexutil::encode_hex(w.bytes.as_slice());
                proof {
                    crate::hexutil::lemma_hex_round_trip(w.bytes@);
                }
                b.append(&mut vh);
                let lit2: [u8; 4] = [0x20, 0x65, 0x74, 0x68];
                proof {
                    assert(lit2@ =~= spec_lit_eth());
                }
                push_ascii_lit(&mut b, lit2.as_slice());
            },
            None => {
                let lit3: [u8; 12] = [
                    0x20,
                    0x77,
                    0x69,
                    0x74,
                    0x68,
                    0x20,
                    0x6e,
                    0x6f,
                    0x20,
                    0x65,
                    0x74,
                    0x68,
                ];
                proof {
                    assert(lit3@ =~= spec_lit_no_eth());
                }
                push_ascii_lit(&mut b, lit3.as_slice());
            },
        }
        let lit4: [u8; 15] = [
            0x2c,
            0x20,
            0x6c,
            0x69,
            0x71,
            0x20,
            0x70,
            0x65,
            0x72,
            0x63,
            0x65,
            0x6e,
            0x74,
            0x3a,
            0x20,
        ];
        proof {
            assert(lit4@ =~= spec_lit_liq());
        }
        push_ascii_lit(&mut b, lit4.as_slice());
        let mut dl = crate::fingerprint::u8_dec_bytes(self.liquidation_percent);
        b.append(&mut dl);
        proof {
            assert(b@ =~= spec_pretty_bytes(*self));
            assert forall|i: int| 0 <= i < b@.len() implies b@[i] < 0x80 by {
                lemma_pretty_bytes_ascii(*self);
                assert(b@[i] == spec_pretty_bytes(*self)[i]);
            }
        }
        Some(crate::fingerprint::ascii_string(b))
    }
}

/// Every byte of the display form is ASCII: hex digits, the fixed
/// literal words, and decimal digits.
proof fn lemma_pretty_bytes_ascii(i: EVMInput)
    ensures
        forall|q: int|
            0 <= q < spec_pretty_bytes(i).len() ==> (#[trigger] spec_pretty_bytes(i)[q]) < 0x80,
{
    let b = spec_pretty_bytes(i);
    crate::hexutil::lemma_hex_round_trip(spec_calldata(i));
    if i.txn_value is Some {
        crate::hexutil::lemma_hex_round_trip(i.txn_value.unwrap().bytes@);
    }
    crate::fingerprint::lemma_dec_bytes_ascii(i.liquidation_percent as nat);
    assert forall|q: int| 0 <= q < b.len() implies (#[trigger] b[q]) < 0x80 by {
        let h = crate::hexutil::spec_encode_hex(spec_calldata(i));
        let mid = match i.txn_value {
            Some(w) => spec_lit_with() + crate::hexutil::spec_encode_hex(w.bytes@)
                + spec_lit_eth(),
            None => spec_lit_no_eth(),
        };
        let tail = spec_lit_liq() + crate::fingerprint::spec_dec_bytes(
            i.liquidation_percent as nat,
        );
        assert(b =~= h + mid + tail);
        if q < h.len() {
            assert(b[q] == h[q]);
            assert(crate::hexutil::spec_is_hex_digit(h[q]));
        } else if q < h.len() + mid.len() {
            assert(b[q] == mid[q - h.len()]);
            match i.txn_value {
                Some(w) => {
                    let vh = crate::hexutil::spec_encode_hex(w.bytes@);
                    let m = q - h.len();
                    if m < spec_lit_with().len() {
                        assert(mid[m] == spec_lit_with()[m]);
                    } else if m < spec_lit_with().len() + vh.len() {
                        assert(mid[m] == vh[m - spec_lit_with().len()]);
                        assert(crate::hexutil::spec_is_hex_digit(vh[m - spec_lit_with().len()]));
                    } else {
                        assert(mid[m] == spec_lit_eth()[m - spec_lit_with().len() - vh.len()]);
                    }
                },
                None => {},
            }
        } else {
            let m = q - h.len() - mid.len();
            if m < spec_lit_liq().len() {
                assert(b[q] == spec_lit_liq()[m]);
            } else {
                assert(b[q] == crate::fingerprint::spec_dec_bytes(
                    i.liquidation_percent as nat,
                )[m - spec_lit_liq().len()]);
            }
        }
    }
}

} // verus!
