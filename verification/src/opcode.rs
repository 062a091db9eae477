use vstd::prelude::*;

verus! {

// EVM opcode bytes used by the disassembler, the selector finder and the
// abstract executor.  Only the opcodes the analysis inspects are named;
// every other byte is handled through its stack arity alone.
pub const OP_STOP: u8 = 0x00;
pub const OP_EQ: u8 = 0x14;
pub const OP_ISZERO: u8 = 0x15;
pub const OP_AND: u8 = 0x16;
pub const OP_SHR: u8 = 0x1c;
pub const OP_BALANCE: u8 = 0x31;
pub const OP_ORIGIN: u8 = 0x32;
pub const OP_CALLER: u8 = 0x33;
pub const OP_CALLVALUE: u8 = 0x34;
pub const OP_CALLDATALOAD: u8 = 0x35;
pub const OP_CALLDATASIZE: u8 = 0x36;
pub const OP_GASPRICE: u8 = 0x3a;
pub const OP_COINBASE: u8 = 0x41;
pub const OP_TIMESTAMP: u8 = 0x42;
pub const OP_NUMBER: u8 = 0x43;
pub const OP_PREVRANDAO: u8 = 0x44;
pub const OP_GASLIMIT: u8 = 0x45;
pub const OP_CHAINID: u8 = 0x46;
pub const OP_SELFBALANCE: u8 = 0x47;
pub const OP_BASEFEE: u8 = 0x48;
pub const OP_POP: u8 = 0x50;
pub const OP_MLOAD: u8 = 0x51;
pub const OP_MSTORE: u8 = 0x52;
pub const OP_SLOAD: u8 = 0x54;
pub const OP_SSTORE: u8 = 0x55;
pub const OP_JUMP: u8 = 0x56;
pub const OP_JUMPI: u8 = 0x57;
pub const OP_JUMPDEST: u8 = 0x5b;
pub const OP_PUSH1: u8 = 0x60;
pub const OP_PUSH2: u8 = 0x61;
pub const OP_PUSH3: u8 = 0x62;
pub const OP_PUSH4: u8 = 0x63;
pub const OP_PUSH32: u8 = 0x7f;
pub const OP_DUP1: u8 = 0x80;
pub const OP_LOG0: u8 = 0xa0;
pub const OP_LOG4: u8 = 0xa4;
pub const OP_CREATE: u8 = 0xf0;
pub const OP_CALL: u8 = 0xf1;
pub const OP_CALLCODE: u8 = 0xf2;
pub const OP_RETURN: u8 = 0xf3;
pub const OP_DELEGATECALL: u8 = 0xf4;
pub const OP_CREATE2: u8 = 0xf5;
pub const OP_STATICCALL: u8 = 0xfa;
pub const OP_REVERT: u8 = 0xfd;
pub const OP_INVALID: u8 = 0xfe;
pub const OP_SELFDESTRUCT: u8 = 0xff;

/// Size in bytes of the immediate operand carried by an opcode.
/// `PUSH1`..`PUSH32` (0x60..0x7f) carry 1..32 bytes; every other
/// opcode carries none.
pub open spec fn spec_push_size(op: u8) -> nat {
    if 0x60 <= op && op <= 0x7f {
        (op - 0x5f) as nat
    } else {
        0
    }
}

/// Number of immediate bytes that follow `op` in the byte stream.
pub fn push_size(op: u8) -> (n: usize)
    ensures
        n == spec_push_size(op),
        n <= 32,
{
    if 0x60 <= op && op <= 0x7f {
        (op - 0x5f) as usize
    } else {
        0
    }
}

/// True for the opcodes that read the transaction environment: the
/// analyzer downgrades `pure` on any of them and records the component
/// in the access pattern.
pub open spec fn spec_is_env_read(op: u8) -> bool {
    op == OP_BALANCE || op == OP_ORIGIN || op == OP_CALLER || op == OP_CALLVALUE
        || op == OP_GASPRICE || op == OP_COINBASE || op == OP_TIMESTAMP || op == OP_NUMBER
        || op == OP_PREVRANDAO || op == OP_GASLIMIT || op == OP_CHAINID || op == OP_SELFBALANCE
        || op == OP_BASEFEE
}

pub fn is_env_read(op: u8) -> (r: bool)
    ensures
        r == spec_is_env_read(op),
{
    op == OP_BALANCE || op == OP_ORIGIN || op == OP_CALLER || op == OP_CALLVALUE
        || op == OP_GASPRICE || op == OP_COINBASE || op == OP_TIMESTAMP || op == OP_NUMBER
        || op == OP_PREVRANDAO || op == OP_GASLIMIT || op == OP_CHAINID || op == OP_SELFBALANCE
        || op == OP_BASEFEE
}

} // verus!
