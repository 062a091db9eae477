use vstd::prelude::*;

use crate::analyze::{EnvKind, Evidence};
use crate::disasm::Instruction;
use crate::opcode::{
    push_size, OP_AND, OP_BALANCE, OP_BASEFEE, OP_CALL, OP_CALLCODE, OP_CALLDATALOAD, OP_CALLER,
    OP_CALLVALUE, OP_CHAINID, OP_COINBASE, OP_CREATE, OP_CREATE2, OP_DELEGATECALL, OP_GASLIMIT,
    OP_GASPRICE, OP_INVALID, OP_ISZERO, OP_JUMP, OP_JUMPDEST, OP_JUMPI, OP_LOG0, OP_LOG4,
    OP_MLOAD, OP_MSTORE, OP_NUMBER, OP_ORIGIN, OP_POP, OP_PREVRANDAO, OP_PUSH1, OP_PUSH32,
    OP_PUSH4, OP_RETURN, OP_REVERT, OP_SELFBALANCE, OP_SELFDESTRUCT, OP_SLOAD, OP_SSTORE,
    OP_STATICCALL, OP_STOP, OP_TIMESTAMP,
};
use crate::selectors::is_jumpdest_at;
use crate::word::be_bytes_value_u64;

verus! {

// Component E: a bounded abstract execution of one function body.  The
// stack holds abstract values; every `JUMPI` to a known `JUMPDEST` forks;
// exploration stops when the step budget runs out or a program counter is
// revisited too often.  The walk emits `Evidence` in discovery order; the
// collapse in `analyze` folds it into the function entry, so everything
// the entry claims rests on the fold's exact contract.

/// An abstract stack value.
pub enum AbsVal {
    /// A known constant, at most 32 bytes, big-endian.
    Con { bytes: Vec<u8> },
    /// A word loaded from calldata slot `slot`.
    CalldataWord { slot: u64 },
    /// A word read from the transaction environment.
    EnvWord { kind: EnvKind },
    /// `ISZERO` of the call value: the non-payable revert guard's
    /// condition.
    IsZeroCallValue,
    /// A word read from storage.
    StorageWord,
    /// Anything else.
    Other,
}

fn clone_val(v: &AbsVal) -> AbsVal {
    match v {
        AbsVal::Con { bytes } => {
            let mut b: Vec<u8> = Vec::new();
            let mut i: usize = 0;
            while i < bytes.len()
                decreases bytes.len() - i,
            {
                b.push(bytes[i]);
                i = i + 1;
            }
            AbsVal::Con { bytes: b }
        },
        AbsVal::CalldataWord { slot } => AbsVal::CalldataWord { slot: *slot },
        AbsVal::EnvWord { kind } => AbsVal::EnvWord { kind: *kind },
        AbsVal::IsZeroCallValue => AbsVal::IsZeroCallValue,
        AbsVal::StorageWord => AbsVal::StorageWord,
        AbsVal::Other => AbsVal::Other,
    }
}

fn clone_stack(s: &Vec<AbsVal>) -> Vec<AbsVal> {
    let mut out: Vec<AbsVal> = Vec::new();
    let mut i: usize = 0;
    while i < s.len()
        decreases s.len() - i,
    {
        out.push(clone_val(&s[i]));
        i = i + 1;
    }
    out
}

/// One pending branch of the exploration.
struct BranchState {
    pc: usize,
    stack: Vec<AbsVal>,
    /// Last `PUSH4` immediate seen on this path: the candidate
    /// custom-error selector for a following `REVERT`.
    last_push4: Option<Vec<u8>>,
    /// No `CALLVALUE` revert guard was crossed on this path yet; only a
    /// leaf reached with this still set proves acceptance of value.
    guard_free: bool,
}

/// Stack arity of the opcodes the walk has no special handling for:
/// how many values they pop and push.  `None` marks an invalid opcode.
fn generic_arity(op: u8) -> Option<(usize, usize)> {
    if 0x01 <= op && op <= 0x07 {
        Some((2, 1))
    } else if op == 0x08 || op == 0x09 {
        Some((3, 1))
    } else if op == 0x0a || op == 0x0b {
        Some((2, 1))
    } else if 0x10 <= op && op <= 0x14 {
        Some((2, 1))
    } else if op == 0x15 || op == 0x19 {
        Some((1, 1))
    } else if 0x16 <= op && op <= 0x18 {
        Some((2, 1))
    } else if 0x1a <= op && op <= 0x1d {
        Some((2, 1))
    } else if op == 0x20 {
        Some((2, 1))
    } else if op == 0x30 || op == 0x36 || op == 0x38 || op == 0x3d || op == 0x58 || op == 0x59
        || op == 0x5a {
        Some((0, 1))
    } else if op == 0x37 || op == 0x39 || op == 0x3e {
        Some((3, 0))
    } else if op == 0x3b || op == 0x3f || op == 0x40 {
        Some((1, 1))
    } else if op == 0x3c {
        Some((4, 0))
    } else if op == OP_POP {
        Some((1, 0))
    } else if op == OP_MLOAD {
        Some((1, 1))
    } else if op == OP_MSTORE || op == 0x53 {
        Some((2, 0))
    } else if op == OP_JUMPDEST || op == 0x5f {
        Some((0, if op == 0x5f {
            1
        } else {
            0
        }))
    } else {
        None
    }
}

/// The opcode that reads an environment component.
pub open spec fn spec_env_opcode(kind: EnvKind) -> u8 {
    match kind {
        EnvKind::Caller => OP_CALLER,
        EnvKind::Origin => OP_ORIGIN,
        EnvKind::CallValue => OP_CALLVALUE,
        EnvKind::Balance => OP_BALANCE,
        EnvKind::SelfBalance => OP_SELFBALANCE,
        EnvKind::GasPrice => OP_GASPRICE,
        EnvKind::BaseFee => OP_BASEFEE,
        EnvKind::Timestamp => OP_TIMESTAMP,
        EnvKind::Coinbase => OP_COINBASE,
        EnvKind::GasLimit => OP_GASLIMIT,
        EnvKind::Number => OP_NUMBER,
        EnvKind::ChainId => OP_CHAINID,
        EnvKind::PrevRandao => OP_PREVRANDAO,
    }
}

/// The environment component an opcode reads.
fn env_kind_of(op: u8) -> (r: Option<EnvKind>)
    ensures
        match r {
            Some(kind) => op == spec_env_opcode(kind),
            None => true,
        },
{
    if op == OP_CALLER {
        Some(EnvKind::Caller)
    } else if op == OP_ORIGIN {
        Some(EnvKind::Origin)
    } else if op == OP_CALLVALUE {
        Some(EnvKind::CallValue)
    } else if op == OP_GASPRICE {
        Some(EnvKind::GasPrice)
    } else if op == OP_COINBASE {
        Some(EnvKind::Coinbase)
    } else if op == OP_TIMESTAMP {
        Some(EnvKind::Timestamp)
    } else if op == OP_NUMBER {
        Some(EnvKind::Number)
    } else if op == OP_PREVRANDAO {
        Some(EnvKind::PrevRandao)
    } else if op == OP_GASLIMIT {
        Some(EnvKind::GasLimit)
    } else if op == OP_CHAINID {
        Some(EnvKind::ChainId)
    } else if op == OP_SELFBALANCE {
        Some(EnvKind::SelfBalance)
    } else if op == OP_BASEFEE {
        Some(EnvKind::BaseFee)
    } else {
        None
    }
}

/// Number of `0xff` bytes in a mask constant: the mask size in bytes.
fn count_ff_bytes(b: &Vec<u8>) -> (n: usize)
    ensures
        n <= b@.len(),
{
    let mut n: usize = 0;
    let mut i: usize = 0;
    while i < b.len()
        invariant
            n <= i <= b@.len(),
        decreases b.len() - i,
    {
        if b[i] == 0xff {
            n = n + 1;
        }
        i = i + 1;
    }
    n
}

/// The constant's numeric value, when it fits a machine word.
fn con_value(b: &Vec<u8>) -> Option<u64> {
    let mut start: usize = 0;
    while start < b.len() && b[start] == 0
        invariant
            start <= b@.len(),
        decreases b.len() - start,
    {
        start = start + 1;
    }
    if b.len() - start > 8 {
        return None;
    }
    let mut sig: Vec<u8> = Vec::new();
    let mut i: usize = start;
    while i < b.len()
        invariant
            start <= i <= b@.len(),
            sig@.len() == i - start,
            b@.len() - start <= 8,
        decreases b.len() - i,
    {
        sig.push(b[i]);
        i = i + 1;
    }
    Some(be_bytes_value_u64(sig.as_slice()))
}

/// Every observation is licensed by an opcode of the byte stream: the
/// storage, environment, log, call and leaf kinds each demand their
/// opcode somewhere in the code, an argument read demands a
/// `CALLDATALOAD` or a masking `AND`, and a custom-error selector's four
/// bytes stand verbatim as a `PUSH4` immediate.  A plain revert or cut
/// leaf also stands for a VM fault, which any byte can raise.
pub open spec fn spec_evidence_origin(e: crate::analyze::EvModel, s: Seq<u8>) -> bool {
    match e {
        crate::analyze::EvModel::Arg { .. } => exists|p: int|
            0 <= p < s.len() && (#[trigger] s[p] == OP_CALLDATALOAD || s[p] == OP_AND),
        crate::analyze::EvModel::StorageRead { .. } => exists|p: int|
            0 <= p < s.len() && #[trigger] s[p] == OP_SLOAD,
        crate::analyze::EvModel::StorageWrite { .. } => exists|p: int|
            0 <= p < s.len() && #[trigger] s[p] == OP_SSTORE,
        crate::analyze::EvModel::EnvRead { kind } => exists|p: int|
            0 <= p < s.len() && #[trigger] s[p] == spec_env_opcode(kind),
        crate::analyze::EvModel::EventTopic { .. } => exists|p: int|
            0 <= p < s.len() && OP_LOG0 <= #[trigger] s[p] <= OP_LOG4,
        crate::analyze::EvModel::ErrorSel { selector } => selector.len() == 4 && exists|p: int|
            0 <= p && p + 5 <= s.len() && #[trigger] s[p] == OP_PUSH4 && s.subrange(p + 1, p + 5)
                == selector,
        crate::analyze::EvModel::ExternalCall { .. } => exists|p: int|
            0 <= p < s.len() && (#[trigger] s[p] == OP_CALL || s[p] == OP_CALLCODE || s[p]
                == OP_DELEGATECALL || s[p] == OP_STATICCALL),
        crate::analyze::EvModel::Create => exists|p: int|
            0 <= p < s.len() && (#[trigger] s[p] == OP_CREATE || s[p] == OP_CREATE2),
        crate::analyze::EvModel::LeafReturn { .. } => exists|p: int|
            0 <= p < s.len() && #[trigger] s[p] == OP_RETURN,
        crate::analyze::EvModel::LeafStop { .. } => exists|p: int|
            0 <= p < s.len() && #[trigger] s[p] == OP_STOP,
        crate::analyze::EvModel::LeafSelfDestruct => exists|p: int|
            0 <= p < s.len() && #[trigger] s[p] == OP_SELFDESTRUCT,
        crate::analyze::EvModel::LeafRevert => true,
        crate::analyze::EvModel::LeafLoop => true,
    }
}

/// Every emitted observation is licensed by the byte stream.
pub open spec fn spec_evidence_grounded(evs: Seq<Evidence>, s: Seq<u8>) -> bool {
    forall|i: int| 0 <= i < evs.len() ==> #[trigger] spec_evidence_origin(evs[i]@, s)
}

/// A remembered `PUSH4` immediate really stands in the byte stream.
pub open spec fn spec_push4_ok(o: Option<Vec<u8>>, s: Seq<u8>) -> bool {
    match o {
        None => true,
        Some(c) => c@.len() == 4 && exists|p: int|
            0 <= p && p + 5 <= s.len() && #[trigger] s[p] == OP_PUSH4 && s.subrange(p + 1, p + 5)
                == c@,
    }
}

/// The evidence kinds that end a branch.
pub open spec fn spec_is_leaf(e: crate::analyze::EvModel) -> bool {
    match e {
        crate::analyze::EvModel::LeafReturn { .. } => true,
        crate::analyze::EvModel::LeafStop { .. } => true,
        crate::analyze::EvModel::LeafRevert => true,
        crate::analyze::EvModel::LeafSelfDestruct => true,
        crate::analyze::EvModel::LeafLoop => true,
        _ => false,
    }
}

/// Some branch of the walk reached its end.
pub open spec fn spec_has_leaf(evs: Seq<Evidence>) -> bool {
    exists|i: int| 0 <= i < evs.len() && spec_is_leaf((#[trigger] evs[i])@)
}

/// Record a branch's end.
fn emit_leaf(evidence: &mut Vec<Evidence>, ev: Evidence)
    requires
        spec_is_leaf(ev@),
    ensures
        final(evidence)@ == old(evidence)@.push(ev),
        spec_has_leaf(final(evidence)@),
{
    evidence.push(ev);
    proof {
        assert(spec_is_leaf(evidence@[evidence@.len() - 1]@));
    }
}

/// Evidence the executor emits keeps masks inside 1..=32.
pub open spec fn spec_evidence_wf(evs: Seq<Evidence>) -> bool {
    forall|i: int|
        0 <= i < evs.len() ==> match #[trigger] evs[i]@ {
            crate::analyze::EvModel::Arg { mask, .. } => 1 <= mask <= 32,
            _ => true,
        }
}

/// Explore the function body that starts at `entry`, spending at most
/// `budget` abstract steps over all branches.  Returns the evidence in
/// discovery order, and whether the budget ran out before the walk was
/// done.  Every VM fault — stack underflow, an invalid opcode — ends its
/// branch as a revert, as the error model asks.
#[verifier::rlimit(80)]
pub fn map_selector(bytes: &Vec<u8>, instrs: &Vec<Instruction>, entry: u64, budget: usize) -> (r: (
    Vec<Evidence>,
    bool,
))
    requires
        bytes@.len() < 0x1000_0000,
    ensures
        spec_evidence_wf(r.0@),
        spec_evidence_grounded(r.0@, bytes@),
        entry >= bytes@.len() ==> (r.0@.len() == 0 && r.1 == false),
        (entry < bytes@.len() && !r.1) ==> spec_has_leaf(r.0@),
{
    let mut evidence: Vec<Evidence> = Vec::new();
    let mut exhausted = false;
    let mut fuel: usize = budget;
    let mut visits: Vec<u8> = Vec::new();
    let mut vi: usize = 0;
    while vi < bytes.len()
        invariant
            vi <= bytes@.len(),
            visits@.len() == vi,
        decreases bytes@.len() - vi,
    {
        visits.push(0);
        vi = vi + 1;
    }
    let mut worklist: Vec<BranchState> = Vec::new();
    if entry >= (bytes.len() as u64) {
        return (evidence, false);
    }
    let e = #[verifier::truncate] (entry as usize);
    worklist.push(BranchState { pc: e, stack: Vec::new(), last_push4: None, guard_free: true });
    while worklist.len() > 0
        invariant
            spec_evidence_wf(evidence@),
            spec_evidence_grounded(evidence@, bytes@),
            visits@.len() == bytes@.len(),
            bytes@.len() < 0x1000_0000,
            !exhausted ==> (spec_has_leaf(evidence@) || worklist@.len() >= 1),
            forall|i: int|
                0 <= i < worklist@.len() ==> #[trigger] spec_push4_ok(
                    worklist@[i].last_push4,
                    bytes@,
                ),
        decreases 2 * fuel + worklist.len(),
    {
        let mut st = worklist.pop().unwrap();
        proof {
            assert(spec_push4_ok(st.last_push4, bytes@));
        }
        if fuel == 0 {
            exhausted = true;
            continue ;
        }
        fuel = fuel - 1;
        if st.pc >= bytes.len() {
            emit_leaf(&mut evidence, Evidence::LeafRevert);
            continue ;
        }
        let seen = visits[st.pc];
        if seen >= 16 {
            emit_leaf(&mut evidence, Evidence::LeafLoop);
            continue ;
        }
        {
            let slot = vstd::std_specs::vec::vec_index_mut(&mut visits, st.pc);
            *slot = seen + 1;
        }
        let op = bytes[st.pc];
        // PUSH1..PUSH32: push the immediate as a constant.
        if OP_PUSH1 <= op && op <= OP_PUSH32 {
            let n = push_size(op);
            let avail = bytes.len() - st.pc - 1;
            let take = if n <= avail {
                n
            } else {
                avail
            };
            let mut imm: Vec<u8> = Vec::new();
            let mut j: usize = 0;
            while j < take
                invariant
                    j <= take,
                    st.pc < bytes@.len(),
                    bytes@.len() < 0x1000_0000,
                    take <= bytes@.len() - st.pc - 1,
                    imm@ =~= bytes@.subrange(st.pc + 1, st.pc + 1 + j),
                decreases take - j,
            {
                imm.push(bytes[st.pc + 1 + j]);
                j = j + 1;
            }
            if op == OP_PUSH4 && imm.len() == 4 {
                let mut c: Vec<u8> = Vec::new();
                let mut q: usize = 0;
                while q < imm.len()
                    invariant
                        q <= imm@.len(),
                        c@ =~= imm@.subrange(0, q as int),
                    decreases imm.len() - q,
                {
                    c.push(imm[q]);
                    q = q + 1;
                }
                proof {
                    assert(c@ =~= imm@);
                    assert(imm@ == bytes@.subrange(st.pc + 1, st.pc + 5));
                    assert(bytes@[st.pc as int] == OP_PUSH4);
                }
                st.last_push4 = Some(c);
            }
            st.stack.push(AbsVal::Con { bytes: imm });
            st.pc = st.pc + 1 + take;
            worklist.push(st);
            continue ;
        }
        // DUP1..DUP16
        if 0x80 <= op && op <= 0x8f {
            let d = (op - 0x7f) as usize;
            if st.stack.len() < d {
                emit_leaf(&mut evidence, Evidence::LeafRevert);
                continue ;
            }
            let v = clone_val(&st.stack[st.stack.len() - d]);
            st.stack.push(v);
            st.pc = st.pc + 1;
            worklist.push(st);
            continue ;
        }
        // SWAP1..SWAP16
        if 0x90 <= op && op <= 0x9f {
            let d = (op - 0x8f) as usize;
            if st.stack.len() < d + 1 {
                emit_leaf(&mut evidence, Evidence::LeafRevert);
                continue ;
            }
            let i_top = st.stack.len() - 1;
            let i_low = st.stack.len() - 1 - d;
            let v_top = clone_val(&st.stack[i_top]);
            let v_low = clone_val(&st.stack[i_low]);
            let _ = st.stack.remove(i_top);
            st.stack.insert(i_top, v_low);
            let _ = st.stack.remove(i_low);
            st.stack.insert(i_low, v_top);
            st.pc = st.pc + 1;
            worklist.push(st);
            continue ;
        }
        // LOG0..LOG4
        if OP_LOG0 <= op && op <= OP_LOG4 {
            let n_topics = (op - OP_LOG0) as usize;
            if st.stack.len() < 2 + n_topics {
                emit_leaf(&mut evidence, Evidence::LeafRevert);
                continue ;
            }
            let _off = st.stack.pop();
            let _size = st.stack.pop();
            let mut topic_emitted = false;
            let mut q: usize = 0;
            while q < n_topics
                invariant
                    spec_evidence_wf(evidence@),
                    spec_evidence_grounded(evidence@, bytes@),
                    spec_push4_ok(st.last_push4, bytes@),
                    st.pc < bytes@.len() < 0x1000_0000,
                    OP_LOG0 <= bytes@[st.pc as int] <= OP_LOG4,
                decreases n_topics - q,
            {
                let t = st.stack.pop();
                if q == 0 && !topic_emitted {
                    if let Some(AbsVal::Con { bytes: tb }) = t {
                        evidence.push(Evidence::EventTopic { topic: tb });
                        topic_emitted = true;
                    }
                }
                q = q + 1;
            }
            if !topic_emitted {
                // a LOG without a constant first topic still downgrades
                // the flags
                evidence.push(Evidence::EventTopic { topic: Vec::new() });
            }
            st.pc = st.pc + 1;
            worklist.push(st);
            continue ;
        }
        if op == OP_CALLDATALOAD {
            match st.stack.pop() {
                None => {
                    emit_leaf(&mut evidence, Evidence::LeafRevert);
                    continue ;
                },
                Some(AbsVal::Con { bytes: cb }) => {
                    match con_value(&cb) {
                        Some(v) => {
                            let slot = v / 32;
                            evidence.push(Evidence::Arg { slot, mask: 32 });
                            st.stack.push(AbsVal::CalldataWord { slot });
                        },
                        None => {
                            st.stack.push(AbsVal::Other);
                        },
                    }
                },
                Some(_) => {
                    st.stack.push(AbsVal::Other);
                },
            }
            st.pc = st.pc + 1;
            worklist.push(st);
            continue ;
        }
        if op == OP_AND {
            if st.stack.len() < 2 {
                emit_leaf(&mut evidence, Evidence::LeafRevert);
                continue ;
            }
            let a = st.stack.pop();
            let b = st.stack.pop();
            let mut pushed = false;
            if let (Some(x), Some(y)) = (a, b) {
                let (con, other) = match x {
                    AbsVal::Con { bytes: cb } => (Some(cb), y),
                    _ => match y {
                        AbsVal::Con { bytes: cb } => (Some(cb), x),
                        _ => (None, AbsVal::Other),
                    },
                };
                if let (Some(cb), AbsVal::CalldataWord { slot }) = (con, other) {
                    let m = count_ff_bytes(&cb);
                    if 1 <= m && m <= 32 {
                        evidence.push(Evidence::Arg { slot, mask: m as u8 });
                    }
                    st.stack.push(AbsVal::CalldataWord { slot });
                    pushed = true;
                }
            }
            if !pushed {
                st.stack.push(AbsVal::Other);
            }
            st.pc = st.pc + 1;
            worklist.push(st);
            continue ;
        }
        if op == OP_ISZERO {
            match st.stack.pop() {
                None => {
                    emit_leaf(&mut evidence, Evidence::LeafRevert);
                    continue ;
                },
                Some(AbsVal::EnvWord { kind }) => {
                    if kind == EnvKind::CallValue {
                        st.stack.push(AbsVal::IsZeroCallValue);
                    } else {
                        st.stack.push(AbsVal::Other);
                    }
                },
                Some(_) => {
                    st.stack.push(AbsVal::Other);
                },
            }
            st.pc = st.pc + 1;
            worklist.push(st);
            continue ;
        }
        if op == OP_SLOAD {
            match st.stack.pop() {
                None => {
                    emit_leaf(&mut evidence, Evidence::LeafRevert);
                    continue ;
                },
                Some(AbsVal::Con { bytes: cb }) => {
                    evidence.push(Evidence::StorageRead { slot: con_value(&cb) });
                    st.stack.push(AbsVal::StorageWord);
                },
                Some(_) => {
                    evidence.push(Evidence::StorageRead { slot: None });
                    st.stack.push(AbsVal::StorageWord);
                },
            }
            st.pc = st.pc + 1;
            worklist.push(st);
            continue ;
        }
        if op == OP_SSTORE {
            if st.stack.len() < 2 {
                emit_leaf(&mut evidence, Evidence::LeafRevert);
                continue ;
            }
            let key = st.stack.pop();
            let _val = st.stack.pop();
            let slot = match key {
                Some(AbsVal::Con { bytes: cb }) => con_value(&cb),
                _ => None,
            };
            evidence.push(Evidence::StorageWrite { slot });
            st.pc = st.pc + 1;
            worklist.push(st);
            continue ;
        }
        if op == OP_BALANCE {
            match st.stack.pop() {
                None => {
                    emit_leaf(&mut evidence, Evidence::LeafRevert);
                    continue ;
                },
                Some(_) => {
                    evidence.push(Evidence::EnvRead { kind: EnvKind::Balance });
                    st.stack.push(AbsVal::EnvWord { kind: EnvKind::Balance });
                },
            }
            st.pc = st.pc + 1;
            worklist.push(st);
            continue ;
        }
        if let Some(kind) = env_kind_of(op) {
            evidence.push(Evidence::EnvRead { kind });
            st.stack.push(AbsVal::EnvWord { kind });
            st.pc = st.pc + 1;
            worklist.push(st);
            continue ;
        }
        if op == OP_CALL || op == OP_CALLCODE {
            if st.stack.len() < 7 {
                emit_leaf(&mut evidence, Evidence::LeafRevert);
                continue ;
            }
            let _gas = st.stack.pop();
            let _to = st.stack.pop();
            let value = st.stack.pop();
            let mut q: usize = 0;
            while q < 4
                invariant
                    spec_push4_ok(st.last_push4, bytes@),
                    st.pc < bytes@.len() < 0x1000_0000,
                    (bytes@[st.pc as int] == OP_CALL || bytes@[st.pc as int] == OP_CALLCODE),
                decreases 4 - q,
            {
                let _ = st.stack.pop();
                q = q + 1;
            }
            let with_value = match value {
                Some(AbsVal::Con { bytes: cb }) => match con_value(&cb) {
                    Some(v) => v != 0,
                    None => true,
                },
                _ => true,
            };
            evidence.push(Evidence::ExternalCall { with_value });
            st.stack.push(AbsVal::Other);
            st.pc = st.pc + 1;
            worklist.push(st);
            continue ;
        }
        if op == OP_DELEGATECALL || op == OP_STATICCALL {
            if st.stack.len() < 6 {
                emit_leaf(&mut evidence, Evidence::LeafRevert);
                continue ;
            }
            let mut q: usize = 0;
            while q < 6
                invariant
                    spec_push4_ok(st.last_push4, bytes@),
                    st.pc < bytes@.len() < 0x1000_0000,
                    (bytes@[st.pc as int] == OP_DELEGATECALL || bytes@[st.pc as int]
                        == OP_STATICCALL),
                decreases 6 - q,
            {
                let _ = st.stack.pop();
                q = q + 1;
            }
            evidence.push(Evidence::ExternalCall { with_value: false });
            st.stack.push(AbsVal::Other);
            st.pc = st.pc + 1;
            worklist.push(st);
            continue ;
        }
        if op == OP_CREATE || op == OP_CREATE2 {
            let need: usize = if op == OP_CREATE {
                3
            } else {
                4
            };
            if st.stack.len() < need {
                emit_leaf(&mut evidence, Evidence::LeafRevert);
                continue ;
            }
            let mut q: usize = 0;
            while q < need
                invariant
                    q <= need,
                    spec_push4_ok(st.last_push4, bytes@),
                    st.pc < bytes@.len() < 0x1000_0000,
                    (bytes@[st.pc as int] == OP_CREATE || bytes@[st.pc as int] == OP_CREATE2),
                decreases need - q,
            {
                let _ = st.stack.pop();
                q = q + 1;
            }
            evidence.push(Evidence::Create);
            st.stack.push(AbsVal::Other);
            st.pc = st.pc + 1;
            worklist.push(st);
            continue ;
        }
        if op == OP_JUMP {
            match st.stack.pop() {
                None => {
                    emit_leaf(&mut evidence, Evidence::LeafRevert);
                },
                Some(AbsVal::Con { bytes: cb }) => {
                    match con_value(&cb) {
                        Some(d) => {
                            if is_jumpdest_at(instrs, d) && (d as usize) < bytes.len() {
                                st.pc = d as usize;
                                worklist.push(st);
                            } else {
                                emit_leaf(&mut evidence, Evidence::LeafRevert);
                            }
                        },
                        None => {
                            emit_leaf(&mut evidence, Evidence::LeafRevert);
                        },
                    }
                },
                // an unresolvable jump target: the branch cannot be
                // followed further and is cut
                Some(_) => {
                    emit_leaf(&mut evidence, Evidence::LeafLoop);
                },
            }
            continue ;
        }
        if op == OP_JUMPI {
            if st.stack.len() < 2 {
                emit_leaf(&mut evidence, Evidence::LeafRevert);
                continue ;
            }
            let dest = st.stack.pop();
            let cond = st.stack.pop();
            let mut guard = false;
            if let Some(AbsVal::IsZeroCallValue) = cond {
                guard = true;
            }
            if guard {
                st.guard_free = false;
            }
            let taken_pc: Option<usize> = match dest {
                Some(AbsVal::Con { bytes: cb }) => match con_value(&cb) {
                    Some(d) => if is_jumpdest_at(instrs, d) && (d as usize) < bytes.len() {
                        Some(d as usize)
                    } else {
                        None
                    },
                    None => None,
                },
                _ => None,
            };
            // the fall-through path: on the guard pattern it is the
            // revert-on-value path, so the guard is recorded for the
            // whole function by marking this state
            let fall = BranchState {
                pc: st.pc + 1,
                stack: clone_stack(&st.stack),
                last_push4: match &st.last_push4 {
                    Some(c) => {
                        let mut cc: Vec<u8> = Vec::new();
                        let mut q: usize = 0;
                        while q < c.len()
                            invariant
                                q <= c@.len(),
                                cc@ =~= c@.subrange(0, q as int),
                            decreases c.len() - q,
                        {
                            cc.push(c[q]);
                            q = q + 1;
                        }
                        proof {
                            assert(cc@ =~= c@);
                        }
                        Some(cc)
                    },
                    None => None,
                },
                guard_free: st.guard_free,
            };
            proof {
                assert(spec_push4_ok(fall.last_push4, bytes@));
            }
            if let Some(d) = taken_pc {
                st.pc = d;
                worklist.push(st);
            }
            worklist.push(fall);
            continue ;
        }
        if op == OP_RETURN {
            if st.stack.len() < 2 {
                emit_leaf(&mut evidence, Evidence::LeafRevert);
                continue ;
            }
            let _off = st.stack.pop();
            let size = st.stack.pop();
            let sz: u64 = match size {
                Some(AbsVal::Con { bytes: cb }) => match con_value(&cb) {
                    Some(v) => v,
                    None => 32,
                },
                _ => 32,
            };
            emit_leaf(&mut evidence, Evidence::LeafReturn { size: sz, guard_free: st.guard_free });
            continue ;
        }
        if op == OP_STOP {
            emit_leaf(&mut evidence, Evidence::LeafStop { guard_free: st.guard_free });
            continue ;
        }
        if op == OP_REVERT {
            if st.stack.len() >= 2 {
                let _off = st.stack.pop();
                let _size = st.stack.pop();
            }
            if let Some(c) = st.last_push4 {
                if c.len() == 4 {
                    evidence.push(Evidence::ErrorSel { selector: c });
                }
            }
            emit_leaf(&mut evidence, Evidence::LeafRevert);
            continue ;
        }
        if op == OP_INVALID {
            emit_leaf(&mut evidence, Evidence::LeafRevert);
            continue ;
        }
        if op == OP_SELFDESTRUCT {
            emit_leaf(&mut evidence, Evidence::LeafSelfDestruct);
            continue ;
        }
        // everything else: generic stack effect
        match generic_arity(op) {
            None => {
                emit_leaf(&mut evidence, Evidence::LeafRevert);
                continue ;
            },
            Some((pops, pushes)) => {
                if st.stack.len() < pops {
                    emit_leaf(&mut evidence, Evidence::LeafRevert);
                    continue ;
                }
                let mut q: usize = 0;
                while q < pops
                    invariant
                        q <= pops,
                        spec_push4_ok(st.last_push4, bytes@),
                        st.pc < bytes@.len() < 0x1000_0000,
                    decreases pops - q,
                {
                    let _ = st.stack.pop();
                    q = q + 1;
                }
                let mut w: usize = 0;
                while w < pushes
                    invariant
                        w <= pushes,
                        spec_push4_ok(st.last_push4, bytes@),
                        st.pc < bytes@.len() < 0x1000_0000,
                    decreases pushes - w,
                {
                    st.stack.push(AbsVal::Other);
                    w = w + 1;
                }
                st.pc = st.pc + 1;
                worklist.push(st);
                continue ;
            },
        }
    }
    (evidence, exhausted)
}

} // verus!
