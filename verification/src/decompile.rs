use vstd::prelude::*;

use crate::analyze::{collapse_evidence, FunctionEntry};
use crate::disasm::{disassemble, Instruction};
use crate::hexutil::{canonicalize_hex, decode_hex, spec_canonical_hex, spec_is_hex_text};
use crate::input::copy_bytes;
use crate::matcher::match_parameters;
use crate::output::{build_output, ABIStructure};
use crate::resolve::{rank_candidates, select_default, ResolvedSig, SignatureCache};
use crate::selectors::{find_function_selectors, resolve_entry_point};
use crate::sym::map_selector;
use crate::word::{be_bytes_value_u64, spec_be_val};
use vstd::utf8::encode_utf8;

verus! {

// The decompilation pipeline: canonicalize and decode the hex target,
// disassemble, find the dispatcher's selectors, explore each function
// body, collapse the evidence, optionally reconcile with resolved
// signatures, and assemble the sorted ABI output.  Target fetching,
// signature-database lookups, prompting and rendering are I/O and live
// outside; the pipeline consumes their results as plain values.

/// The decompiler's command-line arguments, as plain values.  The CLI
/// front end owns parsing and hands this record over.
pub struct DecompilerArgs {
    /// The target: a file, raw bytecode, contract address, or name.
    pub target: String,
    /// Output verbosity level, 0 to 5.
    pub verbose: u8,
    /// The output directory to write the decompiled files to.
    pub output: String,
    /// The RPC provider used for fetching target bytecode.
    pub rpc_url: String,
    /// When prompted, always select the default value.
    pub default: bool,
    /// Whether to skip resolving function selectors.
    pub skip_resolving: bool,
}

/// Abstract steps each function body exploration may spend.
pub const ANALYSIS_BUDGET: usize = 16384;

/// Bytecode above the validator's ceiling (25000 bytes, 50000 digits) is
/// rejected.
pub const MAX_HEX_DIGITS: usize = 50000;

/// A selector's 4 bytes as the cache key.
pub fn selector_key(sel: &Vec<u8>) -> (r: u32)
    requires
        sel@.len() == 4,
    ensures
        r as nat == spec_be_val(sel@),
{
    proof {
        crate::word::lemma_be_val_bound(sel@);
        assert(crate::word::spec_pow256(4) == 0x1_0000_0000) by {
            reveal_with_fuel(crate::word::spec_pow256, 5);
        }
    }
    let v = be_bytes_value_u64(sel.as_slice());
    v as u32
}

/// The discovered selectors that survive entry-point resolution: the
/// dispatch entries, in discovery order, whose destination is a real
/// `JUMPDEST` — a resolved entry point of 0 marks a false positive and
/// yields no record.
pub open spec fn spec_live_selectors(l: Seq<crate::disasm::InstrModel>) -> Seq<
    crate::selectors::SelModel,
> {
    crate::selectors::spec_find_selectors(l).filter(
        |e: crate::selectors::SelModel|
            crate::selectors::spec_resolve_entry_point(l, e.selector) != 0,
    )
}

/// `st` is the emitted entry of one live selector of the disassembly:
/// it carries that selector and its resolved entry point.
pub open spec fn spec_function_entry_for(
    st: ABIStructure,
    l: Seq<crate::disasm::InstrModel>,
) -> bool {
    exists|j: int|
        0 <= j < spec_live_selectors(l).len() && st.selector@ == (
        #[trigger] spec_live_selectors(l)[j]).selector && st.entry_point as nat
            == crate::selectors::spec_resolve_entry_point(l, spec_live_selectors(l)[j].selector)
}

/// The record is the collapse of evidence grounded in the byte stream:
/// every observation behind its flags, masks, storage, returns, events
/// and errors is licensed by a matching opcode of `s`.
pub open spec fn spec_grounded_collapse(
    evs: Seq<crate::analyze::EvModel>,
    f: FunctionEntry,
    s: Seq<u8>,
) -> bool {
    &&& forall|i: int|
        0 <= i < evs.len() ==> crate::sym::spec_evidence_origin(#[trigger] evs[i], s)
    &&& crate::analyze::spec_collapse_post(evs, f)
}

pub open spec fn spec_entry_grounded(f: FunctionEntry, s: Seq<u8>) -> bool {
    exists|evs: Seq<crate::analyze::EvModel>| #[trigger] spec_grounded_collapse(evs, f, s)
}

/// The emitted form: the structure agrees with a record that is the
/// collapse of bytecode-grounded evidence.
pub open spec fn spec_structure_grounded(st: ABIStructure, s: Seq<u8>) -> bool {
    exists|f: FunctionEntry|
        #[trigger] crate::output::spec_fn_entry_matches(st, f) && spec_entry_grounded(f, s)
}

/// Decompile already-decoded bytecode: every discovered selector whose
/// entry point is real is explored and collapsed; with no selectors at
/// all, a nonempty byte stream is analyzed once from its start as the
/// synthetic fallback entry.  Empty bytecode yields an empty list.
pub fn decompile_bytecode_bytes(bytes: &Vec<u8>) -> (r: Vec<ABIStructure>)
    requires
        bytes@.len() < 0x1000_0000,
    ensures
        bytes@.len() == 0 ==> r@.len() == 0,
        (crate::selectors::spec_find_selectors(crate::disasm::spec_disassemble(bytes@)).len() == 0
            && bytes@.len() > 0) ==> (r@.len() >= 1 && r@[0].kind
            == crate::output::AbiKind::Function && r@[0].selector@ == Seq::<u8>::empty() && forall|
            i: int,
        |
            1 <= i < r@.len() ==> (#[trigger] r@[i]).kind != crate::output::AbiKind::Function),
        crate::selectors::spec_find_selectors(crate::disasm::spec_disassemble(bytes@)).len() > 0
            ==> {
            let l = crate::disasm::spec_disassemble(bytes@);
            let live = spec_live_selectors(l);
            &&& r@.len() >= live.len()
            &&& forall|i: int|
                0 <= i < live.len() ==> (#[trigger] r@[i]).kind == crate::output::AbiKind::Function
                    && spec_function_entry_for(r@[i], l)
            &&& forall|i: int|
                live.len() <= i < r@.len() ==> (#[trigger] r@[i]).kind
                    != crate::output::AbiKind::Function
            &&& forall|a: int, b: int|
                0 <= a < b < live.len() ==> crate::resolve::spec_sig_le(
                    (#[trigger] r@[a]).selector@,
                    (#[trigger] r@[b]).selector@,
                )
            &&& forall|a: int, b: int|
                live.len() <= a < b < r@.len() ==> (((#[trigger] r@[a]).kind
                    == crate::output::AbiKind::Error ==> (#[trigger] r@[b]).kind
                    == crate::output::AbiKind::Error) && (r@[a].kind == r@[b].kind
                    ==> crate::resolve::spec_sig_le(r@[a].selector@, r@[b].selector@)))
        },
        forall|i: int|
            0 <= i < r@.len() && (#[trigger] r@[i]).kind == crate::output::AbiKind::Function
                ==> spec_structure_grounded(r@[i], bytes@),
{
    let functions = analyze_all(bytes);
    proof {
        if bytes@.len() == 0 {
            assert(functions@.len() == 0);
        }
    }
    let ghost fvs = functions@;
    let r = build_output(functions);
    proof {
        let l = crate::disasm::spec_disassemble(bytes@);
        assert forall|i: int|
            0 <= i < r@.len() && (#[trigger] r@[i]).kind == crate::output::AbiKind::Function
                implies spec_structure_grounded(r@[i], bytes@) by {
            assert(i < fvs.len());
            assert(crate::output::spec_some_entry_matches(r@[i], fvs));
            let j = choose|j: int|
                0 <= j < fvs.len() && crate::output::spec_fn_entry_matches(r@[i], fvs[j]);
            assert(spec_entry_grounded(fvs[j], bytes@));
        }
        if crate::selectors::spec_find_selectors(l).len() == 0 && bytes@.len() > 0 {
            assert(fvs.len() == 1);
            assert(crate::output::spec_some_entry_matches(r@[0], fvs));
            let j = choose|j: int|
                0 <= j < fvs.len() && crate::output::spec_fn_entry_matches(r@[0], fvs[j]);
            assert(fvs[j] == fvs[0]);
        }
        if crate::selectors::spec_find_selectors(l).len() > 0 {
            let live = spec_live_selectors(l);
            assert(fvs.len() == live.len());
            assert forall|i: int| 0 <= i < live.len() implies (#[trigger] r@[i]).kind
                == crate::output::AbiKind::Function && spec_function_entry_for(r@[i], l) by {
                assert(crate::output::spec_some_entry_matches(r@[i], fvs));
                let j = choose|j: int|
                    0 <= j < fvs.len() && crate::output::spec_fn_entry_matches(r@[i], fvs[j]);
                assert(fvs[j].selector@ == live[j].selector);
                assert(r@[i].selector@ == live[j].selector && r@[i].entry_point as nat
                    == crate::selectors::spec_resolve_entry_point(l, live[j].selector));
            }
        }
    }
    r
}

/// Analyze every discovered function entry of the byte stream, in
/// discovery order.  Empty bytecode yields no entries; a dispatcher
/// without selector patterns yields the one synthetic fallback entry.
pub fn analyze_all(bytes: &Vec<u8>) -> (r: Vec<FunctionEntry>)
    requires
        bytes@.len() < 0x1000_0000,
    ensures
        bytes@.len() == 0 ==> r@.len() == 0,
        forall|i: int| 0 <= i < r@.len() ==> (#[trigger] r@[i]).wf(),
        forall|i: int| 0 <= i < r@.len() ==> (#[trigger] r@[i]).resolved_function is None,
        forall|i: int| 0 <= i < r@.len() ==> #[trigger] spec_entry_grounded(r@[i], bytes@),
        (crate::selectors::spec_find_selectors(crate::disasm::spec_disassemble(bytes@)).len() == 0
            && bytes@.len() > 0) ==> (r@.len() == 1 && r@[0].selector@ == Seq::<u8>::empty()
            && r@[0].entry_point == 0),
        crate::selectors::spec_find_selectors(crate::disasm::spec_disassemble(bytes@)).len() > 0
            ==> {
            let l = crate::disasm::spec_disassemble(bytes@);
            let live = spec_live_selectors(l);
            &&& r@.len() == live.len()
            &&& forall|i: int|
                0 <= i < r@.len() ==> (#[trigger] r@[i]).selector@ == live[i].selector && r@[i].entry_point
                    as nat == crate::selectors::spec_resolve_entry_point(l, live[i].selector)
        },
{
    let instrs = disassemble(bytes.as_slice());
    proof {
        crate::disasm::lemma_disassembly_entries_wf(bytes@, 0);
        let l = instrs@.map_values(|x: Instruction| x@);
        assert forall|i: int|
            0 <= i < l.len() implies (#[trigger] l[i]).immediate.len()
            <= crate::opcode::spec_push_size(l[i].opcode) by {
            assert(l[i] == crate::disasm::spec_disassemble_at(bytes@, 0)[i]);
        }
        assert(crate::selectors::spec_instrs_wf(l));
    }
    let found = find_function_selectors(&instrs);
    proof {
        assert(instrs@.map_values(|x: Instruction| x@) == crate::disasm::spec_disassemble(
            bytes@,
        ));
    }
    let mut functions: Vec<FunctionEntry> = Vec::new();
    if found.len() == 0 {
        if bytes.len() > 0 {
            let (evidence, exhausted) = map_selector(bytes, &instrs, 0, ANALYSIS_BUDGET);
            let f = collapse_evidence(Vec::new(), 0, &evidence, exhausted);
            proof {
                lemma_grounded_witness(evidence@, f, bytes@);
            }
            functions.push(f);
        }
        return functions;
    }
    proof {
        if bytes@.len() == 0 {
            let l = instrs@.map_values(|x: Instruction| x@);
            assert(crate::disasm::spec_disassemble(bytes@).len() == 0);
            assert(l.len() == 0);
            assert(crate::selectors::spec_scan_selectors(l, 0, Seq::empty()) == Seq::<
                crate::selectors::SelModel,
            >::empty());
            assert(found@.map_values(|e: crate::selectors::SelectorEntry| e@).len() == 0);
        }
    }
    let ghost l = instrs@.map_values(|x: Instruction| x@);
    let ghost fm = found@.map_values(|e: crate::selectors::SelectorEntry| e@);
    let ghost pred = |e: crate::selectors::SelModel|
        crate::selectors::spec_resolve_entry_point(l, e.selector) != 0;
    let mut i: usize = 0;
    proof {
        reveal(Seq::filter);
        assert(fm.take(0) =~= Seq::<crate::selectors::SelModel>::empty());
        assert(fm.take(0).filter(pred) =~= Seq::<crate::selectors::SelModel>::empty());
    }
    while i < found.len()
        invariant
            i <= found@.len(),
            0 < bytes@.len() < 0x1000_0000,
            l == instrs@.map_values(|x: Instruction| x@),
            fm == found@.map_values(|e: crate::selectors::SelectorEntry| e@),
            fm == crate::selectors::spec_find_selectors(l),
            (pred == |e: crate::selectors::SelModel|
                crate::selectors::spec_resolve_entry_point(l, e.selector) != 0),
            functions@.len() == fm.take(i as int).filter(pred).len(),
            forall|q: int|
                0 <= q < functions@.len() ==> (#[trigger] functions@[q]).selector@ == fm.take(
                    i as int,
                ).filter(pred)[q].selector && functions@[q].entry_point as nat
                    == crate::selectors::spec_resolve_entry_point(
                    l,
                    fm.take(i as int).filter(pred)[q].selector,
                ),
            forall|q: int| 0 <= q < functions@.len() ==> (#[trigger] functions@[q]).wf(),
            forall|q: int|
                0 <= q < functions@.len() ==> (#[trigger] functions@[q]).resolved_function
                    is None,
            forall|q: int|
                0 <= q < functions@.len() ==> #[trigger] spec_entry_grounded(
                    functions@[q],
                    bytes@,
                ),
        decreases found@.len() - i,
    {
        let sel = copy_bytes(&found[i].selector);
        let entry_point = resolve_entry_point(&instrs, &found, &sel);
        proof {
            reveal(Seq::filter);
            assert(fm.take(i as int + 1).drop_last() =~= fm.take(i as int));
            assert(fm.take(i as int + 1).last() == fm[i as int]);
            assert(fm[i as int] == found@[i as int]@);
            assert(sel@ == fm[i as int].selector);
        }
        let ghost pre_live = fm.take(i as int).filter(pred);
        if entry_point != 0 {
            let (evidence, exhausted) = map_selector(bytes, &instrs, entry_point, ANALYSIS_BUDGET);
            let f = collapse_evidence(sel, entry_point, &evidence, exhausted);
            proof {
                lemma_grounded_witness(evidence@, f, bytes@);
            }
            functions.push(f);
            proof {
                assert(fm.take(i as int + 1).filter(pred) =~= pre_live.push(fm[i as int]));
                assert(functions@[functions@.len() - 1] == f);
            }
        } else {
            proof {
                assert(fm.take(i as int + 1).filter(pred) =~= pre_live);
            }
        }
        i = i + 1;
    }
    proof {
        assert(fm.take(fm.len() as int) =~= fm);
        assert(spec_live_selectors(l) == fm.filter(pred));
    }
    functions
}

/// A freshly collapsed record is grounded: the evidence the walk
/// produced is its witness.
proof fn lemma_grounded_witness(
    evidence: Seq<crate::analyze::Evidence>,
    f: FunctionEntry,
    s: Seq<u8>,
)
    requires
        crate::sym::spec_evidence_grounded(evidence, s),
        crate::analyze::spec_collapse_post(crate::analyze::spec_evs(evidence), f),
    ensures
        spec_entry_grounded(f, s),
{
    let evs = crate::analyze::spec_evs(evidence);
    assert forall|i: int|
        0 <= i < evs.len() implies crate::sym::spec_evidence_origin(#[trigger] evs[i], s) by {
        assert(evs[i] == evidence[i]@);
        assert(crate::sym::spec_evidence_origin(evidence[i]@, s));
    }
    assert(spec_grounded_collapse(evs, f, s));
}

/// Decompile a hex bytecode string to the structured ABI list, with
/// selector resolving skipped; `decompile_with_resolved` is the entry
/// point that takes joined lookup answers.  The text is canonicalized (`0x` marker and null-pad
/// pairs stripped); text that is overlong, odd or not hex yields an
/// empty list, and so does empty bytecode.  The output directory is the
/// renderer's concern and plays no part here.
#[allow(unused_variables)]
pub fn decompile_with_bytecode(contract_bytecode: String, output_dir: String) -> (r: Vec<
    ABIStructure,
>)
    ensures
        ({
            let canon = spec_canonical_hex(encode_utf8(contract_bytecode@));
            let valid = canon.len() <= 2 * 25000 && canon.len() % 2 == 0 && spec_is_hex_text(
                canon,
            );
            let l = crate::disasm::spec_disassemble(crate::hexutil::spec_decode_hex(canon));
            let live = spec_live_selectors(l);
            &&& !valid ==> r@.len() == 0
            &&& canon.len() == 0 ==> r@.len() == 0
            &&& (valid && crate::selectors::spec_find_selectors(l).len() == 0
                && crate::hexutil::spec_decode_hex(canon).len() > 0) ==> (r@.len() >= 1
                && r@[0].kind == crate::output::AbiKind::Function && r@[0].selector@ == Seq::<
                u8,
            >::empty())
            &&& (valid && crate::selectors::spec_find_selectors(l).len() > 0) ==> {
                &&& r@.len() >= live.len()
                &&& forall|i: int|
                    0 <= i < live.len() ==> (#[trigger] r@[i]).kind
                        == crate::output::AbiKind::Function && spec_function_entry_for(r@[i], l)
                &&& forall|i: int|
                    live.len() <= i < r@.len() ==> (#[trigger] r@[i]).kind
                        != crate::output::AbiKind::Function
                &&& forall|a: int, b: int|
                    0 <= a < b < live.len() ==> crate::resolve::spec_sig_le(
                        (#[trigger] r@[a]).selector@,
                        (#[trigger] r@[b]).selector@,
                    )
                &&& forall|a: int, b: int|
                    live.len() <= a < b < r@.len() ==> (((#[trigger] r@[a]).kind
                        == crate::output::AbiKind::Error ==> (#[trigger] r@[b]).kind
                        == crate::output::AbiKind::Error) && (r@[a].kind == r@[b].kind
                        ==> crate::resolve::spec_sig_le(r@[a].selector@, r@[b].selector@)))
            }
            &&& valid ==> forall|i: int|
                0 <= i < r@.len() && (#[trigger] r@[i]).kind == crate::output::AbiKind::Function
                    ==> spec_structure_grounded(r@[i], crate::hexutil::spec_decode_hex(canon))
        }),
{
    let text = contract_bytecode.as_str().as_bytes_vec();
    let canon = canonicalize_hex(text.as_slice());
    if canon.len() > MAX_HEX_DIGITS {
        return Vec::new();
    }
    match decode_hex(canon.as_slice()) {
        None => Vec::new(),
        Some(bytes) => {
            proof {
                assert(bytes@.len() * 2 == canon@.len()) by {
                    lemma_decode_len(canon@);
                }
                assert(bytes@ == crate::hexutil::spec_decode_hex(
                    spec_canonical_hex(encode_utf8(contract_bytecode@)),
                ));
            }
            let ghost dec = crate::hexutil::spec_decode_hex(
                spec_canonical_hex(encode_utf8(contract_bytecode@)),
            );
            proof {
                assert(bytes@ == dec);
            }
            let out = decompile_bytecode_bytes(&bytes);
            proof {
                assert forall|i: int|
                    0 <= i < out@.len() && (#[trigger] out@[i]).kind
                        == crate::output::AbiKind::Function implies spec_structure_grounded(
                    out@[i],
                    dec,
                ) by {
                    assert(0 <= i < out@.len());
                    assert(out@[i].kind == crate::output::AbiKind::Function);
                    assert(spec_structure_grounded(out@[i], bytes@));
                    assert(bytes@ == dec);
                }
            }
            out
        },
    }
}

/// An even-length hex text decodes to half as many bytes.
proof fn lemma_decode_len(s: Seq<u8>)
    requires
        s.len() % 2 == 0,
    ensures
        crate::hexutil::spec_decode_hex(s).len() * 2 == s.len(),
    decreases s.len(),
{
    if s.len() >= 2 {
        lemma_decode_len(s.skip(2));
    }
}

/// A record's resolution is sound against the memoized lookups: when a
/// signature was chosen, the record's selector is 4 bytes, the cache
/// holds a list for it, the chosen text is a member of that list, and it
/// matches the record's argument frames.
pub open spec fn spec_entry_resolution_ok(
    f: FunctionEntry,
    m: Map<u32, Seq<Seq<u8>>>,
) -> bool {
    match f.resolved_function {
        None => true,
        Some(sig) => {
            &&& f.selector@.len() == 4
            &&& m.contains_key(spec_be_val(f.selector@) as u32)
            &&& m[spec_be_val(f.selector@) as u32].contains(sig@)
            &&& crate::matcher::spec_sig_matches(sig@, f.arguments@)
        },
    }
}

/// The emitted form of the same soundness: a structure carrying a
/// signature carries a cache member that matches its own mask list.
pub open spec fn spec_resolved_sig_ok(st: ABIStructure, m: Map<u32, Seq<Seq<u8>>>) -> bool {
    st.signature is Some ==> {
        &&& st.selector@.len() == 4
        &&& m.contains_key(spec_be_val(st.selector@) as u32)
        &&& m[spec_be_val(st.selector@) as u32].contains(st.signature.unwrap()@)
        &&& crate::matcher::spec_sig_matches_masks(st.signature.unwrap()@, st.input_masks@)
    }
}

/// Record-level completeness: when the cache offers a candidate that
/// matches the analyzed frames, a signature is chosen.
pub open spec fn spec_entry_resolution_complete(
    f: FunctionEntry,
    m: Map<u32, Seq<Seq<u8>>>,
) -> bool {
    (f.selector@.len() == 4 && m.contains_key(spec_be_val(f.selector@) as u32) && exists|k: int|
        0 <= k < m[spec_be_val(f.selector@) as u32].len() && crate::matcher::spec_sig_matches(
            #[trigger] m[spec_be_val(f.selector@) as u32][k],
            f.arguments@,
        )) ==> f.resolved_function is Some
}

/// Record-level default choice: the chosen signature is greatest in the
/// ranking order among the matching candidates.
pub open spec fn spec_entry_resolution_greatest(
    f: FunctionEntry,
    m: Map<u32, Seq<Seq<u8>>>,
) -> bool {
    (f.resolved_function is Some && f.selector@.len() == 4 && m.contains_key(
        spec_be_val(f.selector@) as u32,
    )) ==> forall|k: int|
        (0 <= k < m[spec_be_val(f.selector@) as u32].len() && crate::matcher::spec_sig_matches(
            #[trigger] m[spec_be_val(f.selector@) as u32][k],
            f.arguments@,
        )) ==> crate::resolve::spec_sig_le(
            m[spec_be_val(f.selector@) as u32][k],
            f.resolved_function.unwrap()@,
        )
}

/// The emitted form of completeness: a function entry whose cache list
/// holds a candidate matching its mask list carries a signature.
pub open spec fn spec_resolution_complete(st: ABIStructure, m: Map<u32, Seq<Seq<u8>>>) -> bool {
    (st.kind == crate::output::AbiKind::Function && st.selector@.len() == 4 && m.contains_key(
        spec_be_val(st.selector@) as u32,
    ) && exists|k: int|
        0 <= k < m[spec_be_val(st.selector@) as u32].len()
            && crate::matcher::spec_sig_matches_masks(
            #[trigger] m[spec_be_val(st.selector@) as u32][k],
            st.input_masks@,
        )) ==> st.signature is Some
}

/// The emitted form of the default choice: the carried signature is
/// greatest in ranking order among the cache's matching candidates.
pub open spec fn spec_resolution_default_greatest(
    st: ABIStructure,
    m: Map<u32, Seq<Seq<u8>>>,
) -> bool {
    (st.signature is Some && st.selector@.len() == 4 && m.contains_key(
        spec_be_val(st.selector@) as u32,
    )) ==> forall|k: int|
        (0 <= k < m[spec_be_val(st.selector@) as u32].len()
            && crate::matcher::spec_sig_matches_masks(
            #[trigger] m[spec_be_val(st.selector@) as u32][k],
            st.input_masks@,
        )) ==> crate::resolve::spec_sig_le(
            m[spec_be_val(st.selector@) as u32][k],
            st.signature.unwrap()@,
        )
}

/// Decompile decoded bytecode with resolving enabled: the candidates for
/// each selector are taken from the cache — the network answers were
/// joined into it before the per-selector loop, as the pipeline's
/// ordering demands — ranked, filtered against the analyzed parameters,
/// and the chosen match recorded.  Under the default setting the last
/// ranked match is auto-chosen; otherwise the first stands in for the
/// interactive prompt's initial choice.
pub fn decompile_with_resolved(
    bytes: &Vec<u8>,
    resolved: &SignatureCache,
    default_select: bool,
) -> (r: Vec<ABIStructure>)
    requires
        bytes@.len() < 0x1000_0000,
        resolved.wf(),
    ensures
        bytes@.len() == 0 ==> r@.len() == 0,
        forall|i: int|
            0 <= i < r@.len() ==> #[trigger] spec_resolved_sig_ok(r@[i], resolved.map()),
        forall|i: int|
            0 <= i < r@.len() ==> #[trigger] spec_resolution_complete(r@[i], resolved.map()),
        default_select ==> forall|i: int|
            0 <= i < r@.len() ==> #[trigger] spec_resolution_default_greatest(
                r@[i],
                resolved.map(),
            ),
        crate::selectors::spec_find_selectors(crate::disasm::spec_disassemble(bytes@)).len() > 0
            ==> {
            let l = crate::disasm::spec_disassemble(bytes@);
            let live = spec_live_selectors(l);
            &&& r@.len() >= live.len()
            &&& forall|i: int|
                0 <= i < live.len() ==> (#[trigger] r@[i]).kind == crate::output::AbiKind::Function
                    && spec_function_entry_for(r@[i], l)
            &&& forall|i: int|
                live.len() <= i < r@.len() ==> (#[trigger] r@[i]).kind
                    != crate::output::AbiKind::Function
        },
        (crate::selectors::spec_find_selectors(crate::disasm::spec_disassemble(bytes@)).len() == 0
            && bytes@.len() > 0) ==> (r@.len() >= 1 && r@[0].kind
            == crate::output::AbiKind::Function && r@[0].selector@ == Seq::<u8>::empty() && forall|
            i: int,
        |
            1 <= i < r@.len() ==> (#[trigger] r@[i]).kind != crate::output::AbiKind::Function),
        forall|i: int|
            0 <= i < r@.len() && (#[trigger] r@[i]).kind == crate::output::AbiKind::Function
                ==> spec_structure_grounded(r@[i], bytes@),
{
    let analyzed = analyze_all(bytes);
    let mut functions: Vec<FunctionEntry> = Vec::new();
    proof {
        if bytes@.len() == 0 {
            assert(analyzed@.len() == 0);
        }
    }
    let ghost avs = analyzed@;
    let ghost total = analyzed@.len();
    let mut rest = analyzed;
    while rest.len() > 0
        invariant
            resolved.wf(),
            functions@.len() + rest@.len() == total,
            total == avs.len(),
            rest@ == avs.skip(functions@.len() as int),
            forall|q: int|
                0 <= q < rest@.len() ==> (#[trigger] rest@[q]).resolved_function is None,
            forall|q: int|
                0 <= q < functions@.len() ==> (#[trigger] functions@[q]).selector@
                    == avs[q].selector@ && functions@[q].entry_point == avs[q].entry_point,
            forall|q: int|
                0 <= q < avs.len() ==> #[trigger] spec_entry_grounded(avs[q], bytes@),
            forall|q: int|
                0 <= q < functions@.len() ==> #[trigger] spec_entry_grounded(
                    functions@[q],
                    bytes@,
                ),
            forall|q: int|
                0 <= q < functions@.len() ==> #[trigger] spec_entry_resolution_ok(
                    functions@[q],
                    resolved.map(),
                ),
            forall|q: int|
                0 <= q < functions@.len() ==> #[trigger] spec_entry_resolution_complete(
                    functions@[q],
                    resolved.map(),
                ),
            default_select ==> forall|q: int|
                0 <= q < functions@.len() ==> #[trigger] spec_entry_resolution_greatest(
                    functions@[q],
                    resolved.map(),
                ),
        decreases rest@.len(),
    {
        let ghost rm0 = rest@;
        let ghost t = functions@.len();
        let mut f = rest.remove(0);
        proof {
            assert(f == rm0[0]);
            assert(rm0[0] == avs[t as int]);
            assert(rest@ =~= rm0.drop_first());
            assert(rm0.drop_first() =~= avs.skip(t as int + 1));
            assert forall|q: int| 0 <= q < rest@.len() implies (
            #[trigger] rest@[q]).resolved_function is None by {
                assert(rest@[q] == rm0[q + 1]);
            }
        }
        if f.selector.len() == 4 {
            let key = selector_key(&f.selector);
            match resolved.get(key) {
                Some(candidates) => {
                    let ghost cvs = candidates@.map_values(|x: ResolvedSig| x@);
                    let ranked = rank_candidates(candidates);
                    let ghost rvs = ranked@.map_values(|x: ResolvedSig| x@);
                    let matched = match_parameters(&ranked, &f);
                    let ghost mvs = matched@.map_values(|x: ResolvedSig| x@);
                    let ghost pred = |sv: Seq<u8>|
                        crate::matcher::spec_sig_matches(sv, f.arguments@);
                    proof {
                        broadcast use vstd::seq_lib::group_to_multiset_ensures;

                        assert(cvs == resolved.map()[key]);
                        assert(key == spec_be_val(f.selector@) as u32);
                        // every matching candidate survives ranking and
                        // filtering
                        assert forall|k: int|
                            0 <= k < cvs.len() && pred(#[trigger] cvs[k]) implies mvs.contains(
                            cvs[k],
                        ) by {
                            assert(cvs.to_multiset().contains(cvs[k]));
                            assert(rvs.to_multiset().contains(cvs[k]));
                            assert(rvs.contains(cvs[k]));
                            let j = choose|j: int| 0 <= j < rvs.len() && rvs[j] == cvs[k];
                            rvs.lemma_filter_contains(pred, j);
                        }
                    }
                    if matched.len() > 0 {
                        let chosen = if default_select {
                            select_default(&matched)
                        } else {
                            Some(matched[0].clone_sig())
                        };
                        proof {
                            broadcast use vstd::seq_lib::group_to_multiset_ensures;

                            let k: int = if default_select {
                                mvs.len() - 1
                            } else {
                                0
                            };
                            assert(chosen is Some);
                            let c = chosen.unwrap()@;
                            assert(c == mvs[k]);
                            rvs.lemma_filter_pred(pred, k);
                            assert(crate::matcher::spec_sig_matches(c, f.arguments@));
                            crate::matcher::lemma_filter_subset(rvs, pred, k);
                            assert(rvs.contains(c));
                            assert(rvs.to_multiset().contains(c));
                            assert(cvs.to_multiset().contains(c));
                            assert(cvs.contains(c));
                            if default_select {
                                // the choice is the last of the sorted
                                // match list, hence ranking-greatest
                                assert forall|a: int, b: int|
                                    0 <= a < b < rvs.len() implies crate::resolve::spec_sig_le(
                                    #[trigger] rvs[a],
                                    #[trigger] rvs[b],
                                ) by {
                                    assert(rvs[a] == ranked@[a]@ && rvs[b] == ranked@[b]@);
                                }
                                crate::matcher::lemma_filter_sorted(rvs, pred);
                                assert forall|q: int|
                                    0 <= q < cvs.len() && pred(#[trigger] cvs[q]) implies
                                    crate::resolve::spec_sig_le(cvs[q], c) by {
                                    assert(mvs.contains(cvs[q]));
                                    let w = choose|w: int| 0 <= w < mvs.len() && mvs[w] == cvs[q];
                                    if w < mvs.len() - 1 {
                                        assert(crate::resolve::spec_sig_le(mvs[w], mvs[k]));
                                    } else {
                                        crate::resolve::lemma_lex_le_refl(mvs[w]);
                                    }
                                }
                            }
                        }
                        f.resolved_function = chosen;
                        proof {
                            assert(spec_entry_resolution_complete(f, resolved.map()));
                            if default_select {
                                assert(spec_entry_resolution_greatest(f, resolved.map()));
                            }
                        }
                    } else {
                        proof {
                            // nothing matched: no cache candidate can
                            assert forall|k: int|
                                0 <= k < cvs.len() implies !pred(#[trigger] cvs[k]) by {
                                if pred(cvs[k]) {
                                    assert(mvs.contains(cvs[k]));
                                }
                            }
                            assert(spec_entry_resolution_complete(f, resolved.map()));
                        }
                    }
                },
                None => {
                    proof {
                        assert(!resolved.map().contains_key(key));
                        assert(spec_entry_resolution_complete(f, resolved.map()));
                    }
                },
            }
        }
        proof {
            assert(spec_entry_resolution_ok(f, resolved.map()));
            assert(spec_entry_resolution_complete(f, resolved.map()));
            if default_select {
                assert(spec_entry_resolution_greatest(f, resolved.map()));
            }
            // setting the resolved signature touches no field the
            // collapse relation reads, so the grounding witness carries
            assert(spec_entry_grounded(avs[t as int], bytes@));
            let evs = choose|evs: Seq<crate::analyze::EvModel>|
                #[trigger] spec_grounded_collapse(evs, avs[t as int], bytes@);
            assert(spec_grounded_collapse(evs, f, bytes@));
        }
        functions.push(f);
    }
    proof {
        if bytes@.len() == 0 {
            assert(functions@.len() == 0);
        }
    }
    let ghost fvs = functions@;
    let r = build_output(functions);
    proof {
        let l = crate::disasm::spec_disassemble(bytes@);
        if crate::selectors::spec_find_selectors(l).len() > 0 {
            let live = spec_live_selectors(l);
            assert(fvs.len() == live.len());
            assert forall|i: int| 0 <= i < live.len() implies (#[trigger] r@[i]).kind
                == crate::output::AbiKind::Function && spec_function_entry_for(r@[i], l) by {
                assert(crate::output::spec_some_entry_matches(r@[i], fvs));
                let j = choose|j: int|
                    0 <= j < fvs.len() && crate::output::spec_fn_entry_matches(r@[i], fvs[j]);
                assert(fvs[j].selector@ == avs[j].selector@);
                assert(avs[j].selector@ == live[j].selector);
                assert(r@[i].selector@ == live[j].selector && r@[i].entry_point as nat
                    == crate::selectors::spec_resolve_entry_point(l, live[j].selector));
            }
        }
        if crate::selectors::spec_find_selectors(l).len() == 0 && bytes@.len() > 0 {
            assert(fvs.len() == 1);
            assert(crate::output::spec_some_entry_matches(r@[0], fvs));
            let j = choose|j: int|
                0 <= j < fvs.len() && crate::output::spec_fn_entry_matches(r@[0], fvs[j]);
            assert(fvs[j] == fvs[0]);
            assert(fvs[0].selector@ == avs[0].selector@);
        }
        assert forall|i: int|
            0 <= i < r@.len() && (#[trigger] r@[i]).kind == crate::output::AbiKind::Function
                implies spec_structure_grounded(r@[i], bytes@) by {
            assert(i < fvs.len());
            assert(crate::output::spec_some_entry_matches(r@[i], fvs));
            let j = choose|j: int|
                0 <= j < fvs.len() && crate::output::spec_fn_entry_matches(r@[i], fvs[j]);
            assert(spec_entry_grounded(fvs[j], bytes@));
        }
        assert forall|i: int| 0 <= i < r@.len() implies #[trigger] spec_resolved_sig_ok(
            r@[i],
            resolved.map(),
        ) by {
            if r@[i].signature is Some {
                assert(i < fvs.len());
                assert(crate::output::spec_some_entry_matches(r@[i], fvs));
                let j = choose|j: int|
                    0 <= j < fvs.len() && crate::output::spec_fn_entry_matches(r@[i], fvs[j]);
                assert(spec_entry_resolution_ok(fvs[j], resolved.map()));
                assert(fvs[j].resolved_function is Some);
                let sig = fvs[j].resolved_function.unwrap();
                assert(r@[i].signature.unwrap()@ == sig@);
                assert(r@[i].selector@ == fvs[j].selector@);
                crate::matcher::lemma_sig_matches_masks(
                    sig@,
                    fvs[j].arguments@,
                    r@[i].input_masks@,
                );
            }
        }
        assert forall|i: int| 0 <= i < r@.len() implies #[trigger] spec_resolution_complete(
            r@[i],
            resolved.map(),
        ) by {
            let st = r@[i];
            let m = resolved.map();
            if st.kind == crate::output::AbiKind::Function && st.selector@.len() == 4
                && m.contains_key(spec_be_val(st.selector@) as u32) && (exists|k: int|
                0 <= k < m[spec_be_val(st.selector@) as u32].len()
                    && crate::matcher::spec_sig_matches_masks(
                    #[trigger] m[spec_be_val(st.selector@) as u32][k],
                    st.input_masks@,
                )) {
                assert(i < fvs.len());
                assert(crate::output::spec_some_entry_matches(st, fvs));
                let j = choose|j: int|
                    0 <= j < fvs.len() && crate::output::spec_fn_entry_matches(st, fvs[j]);
                let k = choose|k: int|
                    0 <= k < m[spec_be_val(st.selector@) as u32].len()
                        && crate::matcher::spec_sig_matches_masks(
                        #[trigger] m[spec_be_val(st.selector@) as u32][k],
                        st.input_masks@,
                    );
                crate::matcher::lemma_sig_matches_masks_iff(
                    m[spec_be_val(st.selector@) as u32][k],
                    fvs[j].arguments@,
                    st.input_masks@,
                );
                assert(st.selector@ == fvs[j].selector@);
                assert(crate::matcher::spec_sig_matches(
                    m[spec_be_val(fvs[j].selector@) as u32][k],
                    fvs[j].arguments@,
                ));
                assert(spec_entry_resolution_complete(fvs[j], resolved.map()));
                assert(fvs[j].resolved_function is Some);
            }
        }
        if default_select {
            assert forall|i: int|
                0 <= i < r@.len() implies #[trigger] spec_resolution_default_greatest(
                r@[i],
                resolved.map(),
            ) by {
                let st = r@[i];
                let m = resolved.map();
                if st.signature is Some && st.selector@.len() == 4 && m.contains_key(
                    spec_be_val(st.selector@) as u32,
                ) {
                    assert(i < fvs.len());
                    assert(crate::output::spec_some_entry_matches(st, fvs));
                    let j = choose|j: int|
                        0 <= j < fvs.len() && crate::output::spec_fn_entry_matches(st, fvs[j]);
                    assert(fvs[j].resolved_function is Some);
                    assert(st.selector@ == fvs[j].selector@);
                    assert(spec_entry_resolution_greatest(fvs[j], resolved.map()));
                    assert forall|k: int|
                        (0 <= k < m[spec_be_val(st.selector@) as u32].len()
                            && crate::matcher::spec_sig_matches_masks(
                            #[trigger] m[spec_be_val(st.selector@) as u32][k],
                            st.input_masks@,
                        )) implies crate::resolve::spec_sig_le(
                        m[spec_be_val(st.selector@) as u32][k],
                        st.signature.unwrap()@,
                    ) by {
                        crate::matcher::lemma_sig_matches_masks_iff(
                            m[spec_be_val(st.selector@) as u32][k],
                            fvs[j].arguments@,
                            st.input_masks@,
                        );
                        assert(crate::matcher::spec_sig_matches(
                            m[spec_be_val(fvs[j].selector@) as u32][k],
                            fvs[j].arguments@,
                        ));
                        assert(crate::resolve::spec_sig_le(
                            m[spec_be_val(fvs[j].selector@) as u32][k],
                            fvs[j].resolved_function.unwrap()@,
                        ));
                        assert(st.signature.unwrap()@ == fvs[j].resolved_function.unwrap()@);
                    }
                }
            }
        }
    }
    r
}

} // verus!
