use vstd::prelude::*;

use crate::disasm::{Instruction, InstrModel};
use crate::opcode::{OP_EQ, OP_JUMPDEST, OP_JUMPI, OP_PUSH2, OP_PUSH3, OP_PUSH4};
use crate::word::{be_bytes_value_u64, spec_be_val};

verus! {

// The selector finder walks the dispatcher prologue — the disassembly up
// to the first `JUMPDEST` — and records every place where a `PUSH4`
// immediate is compared by `EQ` and jumped to by `JUMPI` through a
// `PUSH2`/`PUSH3` destination.  Selectors are reported in discovery order;
// a selector seen twice keeps its first entry.

/// One discovered dispatch entry.
pub struct SelectorEntry {
    /// The four selector bytes, exactly as they stand in the `PUSH4`
    /// immediate.
    pub selector: Vec<u8>,
    /// The byte offset the matching `JUMPI` jumps to.
    pub dest: u64,
}

/// Mathematical image of a dispatch entry.
pub struct SelModel {
    pub selector: Seq<u8>,
    pub dest: nat,
}

impl View for SelectorEntry {
    type V = SelModel;

    open spec fn view(&self) -> SelModel {
        SelModel { selector: self.selector@, dest: self.dest as nat }
    }
}

/// Every immediate is no longer than its opcode's immediate size — what
/// the disassembler guarantees of its output.
pub open spec fn spec_instrs_wf(l: Seq<InstrModel>) -> bool {
    forall|i: int|
        0 <= i < l.len() ==> (#[trigger] l[i]).immediate.len() <= crate::opcode::spec_push_size(
            l[i].opcode,
        )
}

/// Length of the dispatcher prologue: the number of instructions before
/// the first `JUMPDEST` (all of them when there is none).
pub open spec fn spec_prologue_len(l: Seq<InstrModel>) -> nat
    decreases l.len(),
{
    if l.len() == 0 {
        0
    } else if l[0].opcode == OP_JUMPDEST {
        0
    } else {
        1 + spec_prologue_len(l.drop_first())
    }
}

/// The dispatch comparison pattern stands at instruction index `k`:
/// `PUSH4 <selector>`, `EQ`, `PUSH2`/`PUSH3 <dest>`, `JUMPI`, wholly
/// inside the dispatcher prologue.
pub open spec fn spec_dispatch_pattern_at(l: Seq<InstrModel>, k: int) -> bool {
    &&& 0 <= k
    &&& k + 4 <= spec_prologue_len(l)
    &&& l[k].opcode == OP_PUSH4
    &&& l[k].immediate.len() == 4
    &&& l[k + 1].opcode == OP_EQ
    &&& (l[k + 2].opcode == OP_PUSH2 || l[k + 2].opcode == OP_PUSH3)
    &&& l[k + 3].opcode == OP_JUMPI
}

/// `acc` already holds an entry for `sel`.
pub open spec fn spec_has_selector(acc: Seq<SelModel>, sel: Seq<u8>) -> bool {
    exists|i: int| 0 <= i < acc.len() && (#[trigger] acc[i]).selector == sel
}

/// The scan from index `k` on, with the entries discovered so far in
/// `acc`: each pattern adds its selector unless it is already present.
pub open spec fn spec_scan_selectors(l: Seq<InstrModel>, k: int, acc: Seq<SelModel>) -> Seq<
    SelModel,
>
    decreases spec_prologue_len(l) - k when k >= 0
{
    if k < 0 || k + 4 > spec_prologue_len(l) {
        acc
    } else if spec_dispatch_pattern_at(l, k) && !spec_has_selector(acc, l[k].immediate) {
        spec_scan_selectors(
            l,
            k + 1,
            acc.push(SelModel { selector: l[k].immediate, dest: spec_be_val(l[k + 2].immediate) }),
        )
    } else {
        spec_scan_selectors(l, k + 1, acc)
    }
}

/// The selectors of a disassembly, in discovery order, first occurrence
/// kept.
pub open spec fn spec_find_selectors(l: Seq<InstrModel>) -> Seq<SelModel> {
    spec_scan_selectors(l, 0, Seq::empty())
}

/// `e` records a dispatch pattern verbatim: its selector bytes are the
/// pattern's `PUSH4` immediate and its destination the `PUSH2`/`PUSH3`
/// immediate's value.
pub open spec fn spec_entry_from_pattern(l: Seq<InstrModel>, e: SelModel) -> bool {
    exists|p: int|
        #[trigger] spec_dispatch_pattern_at(l, p) && e.selector == l[p].immediate && e.dest
            == spec_be_val(l[p + 2].immediate)
}

/// Every entry the scan adds comes verbatim from a dispatch pattern.
pub proof fn lemma_scan_entries_from_patterns(l: Seq<InstrModel>, k: int, acc: Seq<SelModel>)
    requires
        0 <= k,
        forall|i: int|
            0 <= i < acc.len() ==> #[trigger] spec_entry_from_pattern(l, acc[i]),
    ensures
        forall|i: int|
            0 <= i < spec_scan_selectors(l, k, acc).len() ==> #[trigger] spec_entry_from_pattern(
                l,
                spec_scan_selectors(l, k, acc)[i],
            ),
    decreases spec_prologue_len(l) - k,
{
    if k + 4 > spec_prologue_len(l) {
        assert(spec_scan_selectors(l, k, acc) == acc);
    } else if spec_dispatch_pattern_at(l, k) && !spec_has_selector(acc, l[k].immediate) {
        let e = SelModel { selector: l[k].immediate, dest: spec_be_val(l[k + 2].immediate) };
        let acc2 = acc.push(e);
        assert(spec_entry_from_pattern(l, e)) by {
            assert(spec_dispatch_pattern_at(l, k) && e.selector == l[k].immediate && e.dest
                == spec_be_val(l[k + 2].immediate));
        }
        assert forall|i: int| 0 <= i < acc2.len() implies #[trigger] spec_entry_from_pattern(
            l,
            acc2[i],
        ) by {
            if i < acc.len() {
                assert(acc2[i] == acc[i]);
            } else {
                assert(acc2[i] == e);
            }
        }
        lemma_scan_entries_from_patterns(l, k + 1, acc2);
        assert(spec_scan_selectors(l, k, acc) == spec_scan_selectors(l, k + 1, acc2));
    } else {
        lemma_scan_entries_from_patterns(l, k + 1, acc);
        assert(spec_scan_selectors(l, k, acc) == spec_scan_selectors(l, k + 1, acc));
    }
}

/// Every discovered entry records a dispatch pattern of the prologue
/// verbatim.
pub proof fn lemma_selectors_verbatim(l: Seq<InstrModel>)
    ensures
        forall|i: int|
            0 <= i < spec_find_selectors(l).len() ==> #[trigger] spec_entry_from_pattern(
                l,
                spec_find_selectors(l)[i],
            ),
{
    lemma_scan_entries_from_patterns(l, 0, Seq::empty());
}

fn contains_selector(v: &Vec<SelectorEntry>, sel: &Vec<u8>) -> (r: bool)
    ensures
        r == spec_has_selector(v@.map_values(|e: SelectorEntry| e@), sel@),
{
    let ghost m = v@.map_values(|e: SelectorEntry| e@);
    let mut i: usize = 0;
    while i < v.len()
        invariant
            i <= v@.len(),
            m == v@.map_values(|e: SelectorEntry| e@),
            forall|j: int| 0 <= j < i ==> (#[trigger] m[j]).selector != sel@,
        decreases v@.len() - i,
    {
        if crate::word::bytes_eq(&v[i].selector, sel) {
            proof {
                assert(m[i as int].selector == sel@);
            }
            return true;
        }
        i = i + 1;
    }
    false
}

/// Number of instructions before the first `JUMPDEST`.
fn prologue_len(instrs: &Vec<Instruction>) -> (n: usize)
    ensures
        n == spec_prologue_len(instrs@.map_values(|i: Instruction| i@)),
        n <= instrs@.len(),
{
    let ghost l = instrs@.map_values(|i: Instruction| i@);
    let mut i: usize = 0;
    proof {
        assert(l.skip(0) =~= l);
    }
    while i < instrs.len()
        invariant
            i <= instrs@.len(),
            l == instrs@.map_values(|x: Instruction| x@),
            spec_prologue_len(l) == i + spec_prologue_len(l.skip(i as int)),
            forall|j: int| 0 <= j < i ==> (#[trigger] l[j]).opcode != OP_JUMPDEST,
        decreases instrs@.len() - i,
    {
        proof {
            assert(l.skip(i as int)[0] == l[i as int]);
            assert(l.skip(i as int).drop_first() =~= l.skip(i as int + 1));
        }
        if instrs[i].opcode == OP_JUMPDEST {
            return i;
        }
        i = i + 1;
    }
    proof {
        assert(l.skip(i as int) =~= Seq::<InstrModel>::empty());
    }
    i
}

/// Scan the dispatcher prologue for dispatch patterns and report each
/// selector with its jump destination, in discovery order, duplicates
/// collapsed to the first occurrence.
pub fn find_function_selectors(instrs: &Vec<Instruction>) -> (r: Vec<SelectorEntry>)
    requires
        spec_instrs_wf(instrs@.map_values(|i: Instruction| i@)),
    ensures
        r@.map_values(|e: SelectorEntry| e@) == spec_find_selectors(
            instrs@.map_values(|i: Instruction| i@),
        ),
{
    let ghost l = instrs@.map_values(|i: Instruction| i@);
    let plen = prologue_len(instrs);
    let mut out: Vec<SelectorEntry> = Vec::new();
    let mut k: usize = 0;
    proof {
        assert(out@.map_values(|e: SelectorEntry| e@) =~= Seq::<SelModel>::empty());
    }
    while plen - k >= 4
        invariant
            l == instrs@.map_values(|i: Instruction| i@),
            spec_instrs_wf(l),
            plen == spec_prologue_len(l),
            plen <= instrs@.len(),
            k <= plen,
            spec_find_selectors(l) == spec_scan_selectors(
                l,
                k as int,
                out@.map_values(|e: SelectorEntry| e@),
            ),
        decreases plen - k,
    {
        let ghost acc = out@.map_values(|e: SelectorEntry| e@);
        let i0 = &instrs[k];
        let matches_pattern = i0.opcode == OP_PUSH4 && i0.immediate.len() == 4
            && instrs[k + 1].opcode == OP_EQ && (instrs[k + 2].opcode == OP_PUSH2 || instrs[k
            + 2].opcode == OP_PUSH3) && instrs[k + 3].opcode == OP_JUMPI;
        proof {
            assert(l[k as int] == instrs@[k as int]@);
            assert(l[k as int + 1] == instrs@[k as int + 1]@);
            assert(l[k as int + 2] == instrs@[k as int + 2]@);
            assert(l[k as int + 3] == instrs@[k as int + 3]@);
            assert(matches_pattern == spec_dispatch_pattern_at(l, k as int));
        }
        if matches_pattern {
            if !contains_selector(&out, &instrs[k].immediate) {
                let mut sel: Vec<u8> = Vec::new();
                let src = &instrs[k].immediate;
                let mut t: usize = 0;
                while t < src.len()
                    invariant
                        t <= src@.len(),
                        sel@ =~= src@.subrange(0, t as int),
                    decreases src@.len() - t,
                {
                    sel.push(src[t]);
                    t = t + 1;
                }
                proof {
                    assert(sel@ =~= src@);
                }
                let imm = &instrs[k + 2].immediate;
                proof {
                    assert(l[k as int + 2].immediate.len() <= 3) by {
                        assert(l[k as int + 2].opcode == OP_PUSH2 || l[k as int + 2].opcode
                            == OP_PUSH3);
                    }
                }
                let dest = be_bytes_value_u64(imm.as_slice());
                let e = SelectorEntry { selector: sel, dest };
                proof {
                    assert(e@ == SelModel {
                        selector: l[k as int].immediate,
                        dest: spec_be_val(l[k as int + 2].immediate),
                    });
                }
                out.push(e);
                proof {
                    assert(out@.map_values(|x: SelectorEntry| x@) =~= acc.push(e@));
                }
            }
        }
        k = k + 1;
    }
    proof {
        assert(spec_scan_selectors(l, k as int, out@.map_values(|e: SelectorEntry| e@))
            == out@.map_values(|e: SelectorEntry| e@));
    }
    out
}

/// A `JUMPDEST` instruction stands at byte offset `pc`.
pub open spec fn spec_is_jumpdest_at(l: Seq<InstrModel>, pc: nat) -> bool {
    exists|i: int| 0 <= i < l.len() && (#[trigger] l[i]).pc == pc && l[i].opcode == OP_JUMPDEST
}

pub fn is_jumpdest_at(instrs: &Vec<Instruction>, pc: u64) -> (r: bool)
    ensures
        r == spec_is_jumpdest_at(instrs@.map_values(|i: Instruction| i@), pc as nat),
{
    let ghost l = instrs@.map_values(|i: Instruction| i@);
    let mut i: usize = 0;
    while i < instrs.len()
        invariant
            i <= instrs@.len(),
            l == instrs@.map_values(|x: Instruction| x@),
            forall|j: int|
                0 <= j < i ==> !((#[trigger] l[j]).pc == pc as nat && l[j].opcode == OP_JUMPDEST),
        decreases instrs@.len() - i,
    {
        if instrs[i].pc as u64 == pc && instrs[i].opcode == OP_JUMPDEST {
            proof {
                assert(l[i as int].pc == pc as nat && l[i as int].opcode == OP_JUMPDEST);
            }
            return true;
        }
        i = i + 1;
    }
    false
}

/// The entry point recorded for `sel`: the destination of its dispatch
/// entry when that destination is a nonzero `JUMPDEST`, and 0 — the
/// false-positive marker — otherwise.
pub open spec fn spec_resolve_entry_point(l: Seq<InstrModel>, sel: Seq<u8>) -> nat {
    let found = spec_find_selectors(l);
    if exists|i: int| 0 <= i < found.len() && (#[trigger] found[i]).selector == sel {
        let i = choose|i: int| 0 <= i < found.len() && (#[trigger] found[i]).selector == sel;
        if found[i].dest != 0 && spec_is_jumpdest_at(l, found[i].dest) {
            found[i].dest
        } else {
            0
        }
    } else {
        0
    }
}

/// Look a selector's entry point up in the discovered dispatch entries.
/// Returns 0 when the selector was never discovered, when its destination
/// is 0, or when no `JUMPDEST` stands at the destination.
pub fn resolve_entry_point(
    instrs: &Vec<Instruction>,
    found: &Vec<SelectorEntry>,
    sel: &Vec<u8>,
) -> (r: u64)
    requires
        found@.map_values(|e: SelectorEntry| e@) == spec_find_selectors(
            instrs@.map_values(|i: Instruction| i@),
        ),
    ensures
        r as nat == spec_resolve_entry_point(instrs@.map_values(|i: Instruction| i@), sel@),
{
    let ghost l = instrs@.map_values(|i: Instruction| i@);
    let ghost fm = found@.map_values(|e: SelectorEntry| e@);
    let mut i: usize = 0;
    while i < found.len()
        invariant
            i <= found@.len(),
            l == instrs@.map_values(|x: Instruction| x@),
            fm == found@.map_values(|e: SelectorEntry| e@),
            fm == spec_find_selectors(l),
            forall|j: int| 0 <= j < i ==> (#[trigger] fm[j]).selector != sel@,
        decreases found@.len() - i,
    {
        if crate::word::bytes_eq(&found[i].selector, sel) {
            proof {
                assert(fm[i as int].selector == sel@);
                lemma_selectors_distinct(l);
                let w = choose|w: int| 0 <= w < fm.len() && (#[trigger] fm[w]).selector == sel@;
                assert(fm[w].selector == sel@);
                assert(fm[w] == fm[i as int]) by {
                    if w < i as int {
                        assert(fm[w].selector != fm[i as int].selector);
                    } else if w > i as int {
                        assert(fm[i as int].selector != fm[w].selector);
                    }
                }
            }
            let d = found[i].dest;
            if d != 0 && is_jumpdest_at(instrs, d) {
                return d;
            } else {
                return 0;
            }
        }
        i = i + 1;
    }
    0
}

/// The scan never adds a selector twice: starting from pairwise-distinct
/// entries it returns pairwise-distinct entries.
proof fn lemma_scan_distinct(l: Seq<InstrModel>, k: int, acc: Seq<SelModel>)
    requires
        0 <= k,
        forall|a: int, b: int|
            0 <= a < b < acc.len() ==> (#[trigger] acc[a]).selector != (
            #[trigger] acc[b]).selector,
    ensures
        forall|a: int, b: int|
            0 <= a < b < spec_scan_selectors(l, k, acc).len() ==> (#[trigger] spec_scan_selectors(
                l,
                k,
                acc,
            )[a]).selector != (#[trigger] spec_scan_selectors(l, k, acc)[b]).selector,
    decreases spec_prologue_len(l) - k,
{
    if k + 4 > spec_prologue_len(l) {
        assert(spec_scan_selectors(l, k, acc) == acc);
    } else if spec_dispatch_pattern_at(l, k) && !spec_has_selector(acc, l[k].immediate) {
        let e = SelModel { selector: l[k].immediate, dest: spec_be_val(l[k + 2].immediate) };
        let acc2 = acc.push(e);
        assert forall|a: int, b: int| 0 <= a < b < acc2.len() implies (
        #[trigger] acc2[a]).selector != (#[trigger] acc2[b]).selector by {
            if b == acc.len() {
                assert(acc2[a] == acc[a]);
                assert(!(exists|i: int|
                    0 <= i < acc.len() && (#[trigger] acc[i]).selector == e.selector));
            } else {
                assert(acc2[a] == acc[a] && acc2[b] == acc[b]);
            }
        }
        lemma_scan_distinct(l, k + 1, acc2);
        assert(spec_scan_selectors(l, k, acc) == spec_scan_selectors(l, k + 1, acc2));
    } else {
        lemma_scan_distinct(l, k + 1, acc);
        assert(spec_scan_selectors(l, k, acc) == spec_scan_selectors(l, k + 1, acc));
    }
}

/// Duplicates collapse to their first occurrence: the discovered entries
/// carry pairwise-distinct selectors.
pub proof fn lemma_selectors_distinct(l: Seq<InstrModel>)
    ensures
        forall|a: int, b: int|
            0 <= a < b < spec_find_selectors(l).len() ==> (
            #[trigger] spec_find_selectors(l)[a]).selector != (
            #[trigger] spec_find_selectors(l)[b]).selector,
{
    lemma_scan_distinct(l, 0, Seq::empty());
}

} // verus!
