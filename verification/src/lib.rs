pub mod analyze;
pub mod decompile;
pub mod disasm;
pub mod fingerprint;
pub mod hexutil;
pub mod input;
pub mod matcher;
pub mod opcode;
pub mod output;
pub mod resolve;
pub mod selectors;
pub mod sym;
pub mod target;
pub mod word;
