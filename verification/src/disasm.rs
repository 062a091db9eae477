use vstd::prelude::*;

use crate::opcode::{push_size, spec_push_size};

verus! {

/// One disassembled entry: the program counter of the opcode byte, the
/// opcode itself and its immediate bytes.  An immediate cut short by the
/// end of the byte stream keeps only the bytes that are present, so that
/// reassembly always reproduces the stream exactly.
pub struct Instruction {
    pub pc: usize,
    pub opcode: u8,
    pub immediate: Vec<u8>,
}

/// Mathematical image of one instruction.
pub struct InstrModel {
    pub pc: nat,
    pub opcode: u8,
    pub immediate: Seq<u8>,
}

impl View for Instruction {
    type V = InstrModel;

    open spec fn view(&self) -> InstrModel {
        InstrModel { pc: self.pc as nat, opcode: self.opcode, immediate: self.immediate@ }
    }
}

/// The bytes an instruction stands for: its opcode followed by its
/// immediate.
pub open spec fn spec_instr_bytes(i: InstrModel) -> Seq<u8> {
    seq![i.opcode] + i.immediate
}

/// Concatenation of the bytes of a whole disassembly, in order.
pub open spec fn spec_assemble(l: Seq<InstrModel>) -> Seq<u8>
    decreases l.len(),
{
    if l.len() == 0 {
        Seq::empty()
    } else {
        spec_instr_bytes(l[0]) + spec_assemble(l.drop_first())
    }
}

/// The disassembly of `s` starting at offset `pc`: each opcode consumes
/// itself and up to its immediate size of following bytes.
pub open spec fn spec_disassemble_at(s: Seq<u8>, pc: nat) -> Seq<InstrModel>
    decreases s.len() - pc,
{
    if pc >= s.len() {
        Seq::empty()
    } else {
        let op = s[pc as int];
        let avail = (s.len() - pc - 1) as nat;
        let n = if spec_push_size(op) <= avail {
            spec_push_size(op)
        } else {
            avail
        };
        seq![
            InstrModel { pc, opcode: op, immediate: s.subrange(pc as int + 1, pc as int + 1 + n as int) },
        ] + spec_disassemble_at(s, pc + 1 + n)
    }
}

/// The disassembly of a whole byte stream.
pub open spec fn spec_disassemble(s: Seq<u8>) -> Seq<InstrModel> {
    spec_disassemble_at(s, 0)
}

/// Concatenating each entry's opcode and immediate bytes, in order,
/// reconstructs the disassembled byte stream exactly.
pub proof fn lemma_disassembly_reconstructs_at(s: Seq<u8>, pc: nat)
    requires
        pc <= s.len(),
    ensures
        spec_assemble(spec_disassemble_at(s, pc)) == s.skip(pc as int),
    decreases s.len() - pc,
{
    if pc >= s.len() {
        assert(s.skip(pc as int) =~= Seq::<u8>::empty());
    } else {
        let op = s[pc as int];
        let avail = (s.len() - pc - 1) as nat;
        let n = if spec_push_size(op) <= avail {
            spec_push_size(op)
        } else {
            avail
        };
        lemma_disassembly_reconstructs_at(s, pc + 1 + n);
        let l = spec_disassemble_at(s, pc);
        assert(l.drop_first() =~= spec_disassemble_at(s, pc + 1 + n));
        assert(spec_assemble(l) == spec_instr_bytes(l[0]) + s.skip(pc as int + 1 + n as int));
        assert(spec_instr_bytes(l[0]) == seq![op] + s.subrange(pc as int + 1, pc as int + 1 + n as int));
        assert(seq![op] + s.subrange(pc as int + 1, pc as int + 1 + n as int) + s.skip(pc as int + 1 + n as int) =~= s.skip(
            pc as int,
        ));
    }
}

/// Reassembling a disassembly is the identity on the underlying bytes.
pub proof fn lemma_disassembly_reconstructs(s: Seq<u8>)
    ensures
        spec_assemble(spec_disassemble(s)) == s,
{
    lemma_disassembly_reconstructs_at(s, 0);
    assert(s.skip(0) =~= s);
}

/// Every entry of a disassembly lies inside the byte stream, carries the
/// opcode byte found at its program counter, and carries no more immediate
/// bytes than its opcode asks for.
pub proof fn lemma_disassembly_entries_wf(s: Seq<u8>, pc: nat)
    requires
        pc <= s.len(),
    ensures
        forall|k: int|
            0 <= k < spec_disassemble_at(s, pc).len() ==> {
                let e = #[trigger] spec_disassemble_at(s, pc)[k];
                &&& pc <= e.pc < s.len()
                &&& e.opcode == s[e.pc as int]
                &&& e.immediate.len() <= spec_push_size(e.opcode)
                &&& e.immediate == s.subrange(e.pc as int + 1, e.pc as int + 1 + e.immediate.len() as int)
            },
    decreases s.len() - pc,
{
    if pc < s.len() {
        let op = s[pc as int];
        let avail = (s.len() - pc - 1) as nat;
        let n = if spec_push_size(op) <= avail {
            spec_push_size(op)
        } else {
            avail
        };
        lemma_disassembly_entries_wf(s, pc + 1 + n);
        let l = spec_disassemble_at(s, pc);
        assert forall|k: int| 0 <= k < l.len() implies {
            let e = #[trigger] l[k];
            &&& pc <= e.pc < s.len()
            &&& e.opcode == s[e.pc as int]
            &&& e.immediate.len() <= spec_push_size(e.opcode)
            &&& e.immediate == s.subrange(e.pc as int + 1, e.pc as int + 1 + e.immediate.len() as int)
        } by {
            if k > 0 {
                assert(l[k] == spec_disassemble_at(s, pc + 1 + n)[k - 1]);
            } else {
                assert(l[0].immediate.len() == n);
            }
        }
    }
}

/// Walk the byte stream, one opcode and its immediate at a time.
pub fn disassemble(bytes: &[u8]) -> (r: Vec<Instruction>)
    ensures
        r@.map_values(|i: Instruction| i@) == spec_disassemble(bytes@),
{
    let mut out: Vec<Instruction> = Vec::new();
    let mut pc: usize = 0;
    proof {
        assert(out@.map_values(|i: Instruction| i@) =~= Seq::<InstrModel>::empty());
    }
    while pc < bytes.len()
        invariant
            pc <= bytes.len(),
            spec_disassemble(bytes@) == out@.map_values(|i: Instruction| i@)
                + spec_disassemble_at(bytes@, pc as nat),
        decreases bytes.len() - pc,
    {
        let op = bytes[pc];
        let want = push_size(op);
        let avail = bytes.len() - pc - 1;
        let n = if want <= avail {
            want
        } else {
            avail
        };
        let mut imm: Vec<u8> = Vec::new();
        let mut j: usize = 0;
        while j < n
            invariant
                j <= n,
                pc < bytes.len(),
                n <= bytes.len() - pc - 1,
                imm@ =~= bytes@.subrange(pc + 1, pc + 1 + j),
            decreases n - j,
        {
            imm.push(bytes[pc + 1 + j]);
            j = j + 1;
        }
        let ghost prev = out@.map_values(|i: Instruction| i@);
        let ins = Instruction { pc, opcode: op, immediate: imm };
        proof {
            assert(spec_disassemble_at(bytes@, pc as nat) == seq![ins@] + spec_disassemble_at(
                bytes@,
                pc as nat + 1 + n as nat,
            ));
        }
        out.push(ins);
        pc = pc + 1 + n;
        proof {
            assert(out@.map_values(|i: Instruction| i@) =~= prev.push(
                out@[out@.len() - 1]@,
            ));
            assert(prev.push(out@[out@.len() - 1]@) + spec_disassemble_at(bytes@, pc as nat)
                =~= prev + (seq![out@[out@.len() - 1]@] + spec_disassemble_at(
                bytes@,
                pc as nat,
            )));
        }
    }
    proof {
        assert(spec_disassemble_at(bytes@, pc as nat) =~= Seq::<InstrModel>::empty());
        assert(out@.map_values(|i: Instruction| i@) + Seq::<InstrModel>::empty()
            =~= out@.map_values(|i: Instruction| i@));
    }
    out
}

/// Concatenate each instruction's opcode and immediate bytes, in order.
pub fn assemble(instrs: &Vec<Instruction>) -> (r: Vec<u8>)
    ensures
        r@ == spec_assemble(instrs@.map_values(|i: Instruction| i@)),
{
    let ghost all = instrs@.map_values(|i: Instruction| i@);
    let mut out: Vec<u8> = Vec::new();
    let mut k: usize = 0;
    proof {
        assert(all.skip(0) =~= all);
    }
    while k < instrs.len()
        invariant
            k <= instrs.len(),
            all == instrs@.map_values(|i: Instruction| i@),
            spec_assemble(all) == out@ + spec_assemble(all.skip(k as int)),
        decreases instrs.len() - k,
    {
        let ins = &instrs[k];
        proof {
            assert(all.skip(k as int)[0] == all[k as int]);
            assert(all.skip(k as int).drop_first() =~= all.skip(k as int + 1));
            assert(spec_assemble(all.skip(k as int)) == spec_instr_bytes(all[k as int])
                + spec_assemble(all.skip(k as int + 1)));
        }
        out.push(ins.opcode);
        let mut j: usize = 0;
        let ghost base = out@;
        while j < ins.immediate.len()
            invariant
                j <= ins.immediate.len(),
                out@ =~= base + ins.immediate@.subrange(0, j as int),
            decreases ins.immediate.len() - j,
        {
            out.push(ins.immediate[j]);
            j = j + 1;
        }
        proof {
            assert(ins.immediate@.subrange(0, ins.immediate@.len() as int) =~= ins.immediate@);
            assert(out@ =~= base + ins.immediate@);
        }
        k = k + 1;
        proof {
            assert(out@ + spec_assemble(all.skip(k as int)) =~= spec_assemble(all));
        }
    }
    proof {
        assert(all.skip(k as int) =~= Seq::<InstrModel>::empty());
        assert(out@ + Seq::<u8>::empty() =~= out@);
    }
    out
}

} // verus!
