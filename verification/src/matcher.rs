use vstd::prelude::*;

use crate::analyze::{Frame, FunctionEntry};
use crate::resolve::ResolvedSig;

verus! {

// Component G: reconcile the analyzer's argument frames with resolved
// signatures.  A candidate matches when its parameter count equals the
// analyzed argument count and each parameter's ABI category is compatible
// with the mask recorded for its slot.

/// Split from byte `i` of `s` at top-level commas, with the bracket depth
/// `depth`, the current piece `cur` and the pieces already cut in `acc`.
pub open spec fn spec_split_from(s: Seq<u8>, depth: int, cur: Seq<u8>, acc: Seq<Seq<u8>>) -> Seq<
    Seq<u8>,
>
    decreases s.len(),
{
    if s.len() == 0 {
        acc.push(cur)
    } else {
        let c = s.first();
        if c == 0x2c && depth == 0 {
            spec_split_from(s.drop_first(), 0, Seq::empty(), acc.push(cur))
        } else if c == 0x28 {
            spec_split_from(s.drop_first(), depth + 1, cur.push(c), acc)
        } else if c == 0x29 {
            spec_split_from(s.drop_first(), depth - 1, cur.push(c), acc)
        } else {
            spec_split_from(s.drop_first(), depth, cur.push(c), acc)
        }
    }
}

/// First index of `b` in `s`, or the length.
pub open spec fn spec_index_of(s: Seq<u8>, b: u8) -> int
    decreases s.len(),
{
    if s.len() == 0 {
        0
    } else if s.first() == b {
        0
    } else {
        1 + spec_index_of(s.drop_first(), b)
    }
}

/// The parameter texts of a signature `name(p1,p2,...)`: the text
/// between the first `(` and the last `)`, cut at top-level commas.
/// `None` when the parentheses are missing or empty-crossed; an empty
/// parameter list for `name()`.
pub open spec fn spec_sig_params(sig: Seq<u8>) -> Option<Seq<Seq<u8>>> {
    let open = spec_index_of(sig, 0x28);
    if open >= sig.len() || sig.last() != 0x29 || open + 1 > sig.len() - 1 {
        None
    } else {
        let inner = sig.subrange(open + 1, sig.len() - 1);
        if inner.len() == 0 {
            Some(Seq::empty())
        } else {
            Some(spec_split_from(inner, 0, Seq::empty(), Seq::empty()))
        }
    }
}

/// ABI categories the compatibility table distinguishes.
#[derive(PartialEq, Eq, Structural, Clone, Copy, Debug)]
pub enum ParamCategory {
    Bool,
    Uint8,
    Int8,
    Address,
    Uint256,
    Int256,
    Bytes32,
    Dynamic,
    Other,
}

/// The category of one parameter text.
pub open spec fn spec_category(p: Seq<u8>) -> ParamCategory {
    if p == seq![0x62u8, 0x6fu8, 0x6fu8, 0x6cu8] {
        ParamCategory::Bool
    } else if p == seq![0x75u8, 0x69u8, 0x6eu8, 0x74u8, 0x38u8] {
        ParamCategory::Uint8
    } else if p == seq![0x69u8, 0x6eu8, 0x74u8, 0x38u8] {
        ParamCategory::Int8
    } else if p == seq![0x61u8, 0x64u8, 0x64u8, 0x72u8, 0x65u8, 0x73u8, 0x73u8] {
        ParamCategory::Address
    } else if p == seq![0x75u8, 0x69u8, 0x6eu8, 0x74u8, 0x32u8, 0x35u8, 0x36u8] {
        ParamCategory::Uint256
    } else if p == seq![0x69u8, 0x6eu8, 0x74u8, 0x32u8, 0x35u8, 0x36u8] {
        ParamCategory::Int256
    } else if p == seq![0x62u8, 0x79u8, 0x74u8, 0x65u8, 0x73u8, 0x33u8, 0x32u8] {
        ParamCategory::Bytes32
    } else if p == seq![0x73u8, 0x74u8, 0x72u8, 0x69u8, 0x6eu8, 0x67u8] || p == seq![
        0x62u8,
        0x79u8,
        0x74u8,
        0x65u8,
        0x73u8,
    ] || (p.len() > 0 && p.last() == 0x5d) {
        ParamCategory::Dynamic
    } else {
        ParamCategory::Other
    }
}

/// The compatibility table: which categories a slot mask admits.
pub open spec fn spec_compatible(mask: nat, cat: ParamCategory) -> bool {
    if mask == 1 {
        cat == ParamCategory::Bool || cat == ParamCategory::Uint8 || cat == ParamCategory::Int8
    } else if mask == 20 {
        cat == ParamCategory::Address
    } else if mask == 32 {
        cat == ParamCategory::Uint256 || cat == ParamCategory::Int256 || cat
            == ParamCategory::Bytes32 || cat == ParamCategory::Dynamic
    } else {
        false
    }
}

/// A candidate signature matches the analyzed frames: as many parameters
/// as arguments, each compatible with its slot's mask.
pub open spec fn spec_sig_matches(sig: Seq<u8>, frames: Seq<Frame>) -> bool {
    match spec_sig_params(sig) {
        None => false,
        Some(ps) => ps.len() == frames.len() && forall|i: int|
            0 <= i < ps.len() ==> spec_compatible(
                (#[trigger] frames[i]).mask_size as nat,
                spec_category(ps[i]),
            ),
    }
}

/// Cut a parameter list at top-level commas.
fn split_params(inner: &Vec<u8>) -> (r: Vec<Vec<u8>>)
    ensures
        r@.map_values(|p: Vec<u8>| p@) == spec_split_from(
            inner@,
            0,
            Seq::empty(),
            Seq::empty(),
        ),
{
    let ghost goal = spec_split_from(inner@, 0, Seq::empty(), Seq::empty());
    let mut acc: Vec<Vec<u8>> = Vec::new();
    let mut cur: Vec<u8> = Vec::new();
    let mut depth: i128 = 0;
    let mut i: usize = 0;
    proof {
        assert(inner@.skip(0) =~= inner@);
        assert(acc@.map_values(|p: Vec<u8>| p@) =~= Seq::<Seq<u8>>::empty());
        assert(cur@ =~= Seq::<u8>::empty());
    }
    while i < inner.len()
        invariant
            i <= inner@.len(),
            goal == spec_split_from(inner@, 0, Seq::empty(), Seq::empty()),
            goal == spec_split_from(
                inner@.skip(i as int),
                depth as int,
                cur@,
                acc@.map_values(|p: Vec<u8>| p@),
            ),
            -(i as int) <= depth as int <= i as int,
        decreases inner@.len() - i,
    {
        let c = inner[i];
        let ghost accm0 = acc@.map_values(|p: Vec<u8>| p@);
        let ghost cur0 = cur@;
        proof {
            assert(inner@.skip(i as int).first() == inner@[i as int]);
            assert(inner@.skip(i as int).drop_first() =~= inner@.skip(i as int + 1));
        }
        if c == 0x2c && depth == 0 {
            acc.push(cur);
            cur = Vec::new();
            proof {
                assert(acc@.map_values(|p: Vec<u8>| p@) =~= accm0.push(cur0));
                assert(cur@ =~= Seq::<u8>::empty());
            }
        } else if c == 0x28 {
            cur.push(c);
            depth = depth + 1;
        } else if c == 0x29 {
            cur.push(c);
            depth = depth - 1;
        } else {
            cur.push(c);
        }
        i = i + 1;
        proof {
            assert(goal == spec_split_from(
                inner@.skip(i as int),
                depth as int,
                cur@,
                acc@.map_values(|p: Vec<u8>| p@),
            ));
        }
    }
    proof {
        assert(inner@.skip(i as int).len() == 0);
    }
    let ghost accm1 = acc@.map_values(|p: Vec<u8>| p@);
    let ghost cur1 = cur@;
    acc.push(cur);
    proof {
        assert(acc@.map_values(|p: Vec<u8>| p@) =~= accm1.push(cur1));
    }
    acc
}

/// First index of `b`, or the length.
fn index_of(s: &Vec<u8>, b: u8) -> (r: usize)
    ensures
        r == spec_index_of(s@, b),
        r <= s@.len(),
    decreases s@.len(),
{
    let mut i: usize = 0;
    proof {
        assert(s@.skip(0) =~= s@);
    }
    while i < s.len()
        invariant
            i <= s@.len(),
            spec_index_of(s@, b) == i + spec_index_of(s@.skip(i as int), b),
            forall|j: int| 0 <= j < i ==> s@[j] != b,
        decreases s@.len() - i,
    {
        proof {
            assert(s@.skip(i as int).first() == s@[i as int]);
            assert(s@.skip(i as int).drop_first() =~= s@.skip(i as int + 1));
        }
        if s[i] == b {
            return i;
        }
        i = i + 1;
    }
    proof {
        assert(s@.skip(i as int).len() == 0);
    }
    i
}

/// The exec mirror of `spec_category`.
fn category(p: &Vec<u8>) -> (r: ParamCategory)
    ensures
        r == spec_category(p@),
{
    let n = p.len();
    if n == 4 && p[0] == 0x62 && p[1] == 0x6f && p[2] == 0x6f && p[3] == 0x6c {
        proof {
            assert(p@ =~= seq![0x62u8, 0x6fu8, 0x6fu8, 0x6cu8]);
        }
        ParamCategory::Bool
    } else if n == 5 && p[0] == 0x75 && p[1] == 0x69 && p[2] == 0x6e && p[3] == 0x74 && p[4]
        == 0x38 {
        proof {
            assert(p@ =~= seq![0x75u8, 0x69u8, 0x6eu8, 0x74u8, 0x38u8]);
        }
        ParamCategory::Uint8
    } else if n == 4 && p[0] == 0x69 && p[1] == 0x6e && p[2] == 0x74 && p[3] == 0x38 {
        proof {
            assert(p@ =~= seq![0x69u8, 0x6eu8, 0x74u8, 0x38u8]);
        }
        ParamCategory::Int8
    } else if n == 7 && p[0] == 0x61 && p[1] == 0x64 && p[2] == 0x64 && p[3] == 0x72 && p[4]
        == 0x65 && p[5] == 0x73 && p[6] == 0x73 {
        proof {
            assert(p@ =~= seq![0x61u8, 0x64u8, 0x64u8, 0x72u8, 0x65u8, 0x73u8, 0x73u8]);
        }
        ParamCategory::Address
    } else if n == 7 && p[0] == 0x75 && p[1] == 0x69 && p[2] == 0x6e && p[3] == 0x74 && p[4]
        == 0x32 && p[5] == 0x35 && p[6] == 0x36 {
        proof {
            assert(p@ =~= seq![0x75u8, 0x69u8, 0x6eu8, 0x74u8, 0x32u8, 0x35u8, 0x36u8]);
        }
        ParamCategory::Uint256
    } else if n == 6 && p[0] == 0x69 && p[1] == 0x6e && p[2] == 0x74 && p[3] == 0x32 && p[4]
        == 0x35 && p[5] == 0x36 {
        proof {
            assert(p@ =~= seq![0x69u8, 0x6eu8, 0x74u8, 0x32u8, 0x35u8, 0x36u8]);
        }
        ParamCategory::Int256
    } else if n == 7 && p[0] == 0x62 && p[1] == 0x79 && p[2] == 0x74 && p[3] == 0x65 && p[4]
        == 0x73 && p[5] == 0x33 && p[6] == 0x32 {
        proof {
            assert(p@ =~= seq![0x62u8, 0x79u8, 0x74u8, 0x65u8, 0x73u8, 0x33u8, 0x32u8]);
        }
        ParamCategory::Bytes32
    } else if n == 6 && p[0] == 0x73 && p[1] == 0x74 && p[2] == 0x72 && p[3] == 0x69 && p[4]
        == 0x6e && p[5] == 0x67 {
        proof {
            assert(p@ =~= seq![0x73u8, 0x74u8, 0x72u8, 0x69u8, 0x6eu8, 0x67u8]);
        }
        ParamCategory::Dynamic
    } else if n == 5 && p[0] == 0x62 && p[1] == 0x79 && p[2] == 0x74 && p[3] == 0x65 && p[4]
        == 0x73 {
        proof {
            assert(p@ =~= seq![0x62u8, 0x79u8, 0x74u8, 0x65u8, 0x73u8]);
        }
        ParamCategory::Dynamic
    } else if n > 0 && p[n - 1] == 0x5d {
        ParamCategory::Dynamic
    } else {
        proof {
            assert(p@ != seq![0x62u8, 0x6fu8, 0x6fu8, 0x6cu8]);
            assert(p@ != seq![0x75u8, 0x69u8, 0x6eu8, 0x74u8, 0x38u8]);
            assert(p@ != seq![0x69u8, 0x6eu8, 0x74u8, 0x38u8]);
            assert(p@ != seq![0x61u8, 0x64u8, 0x64u8, 0x72u8, 0x65u8, 0x73u8, 0x73u8]);
            assert(p@ != seq![0x75u8, 0x69u8, 0x6eu8, 0x74u8, 0x32u8, 0x35u8, 0x36u8]);
            assert(p@ != seq![0x69u8, 0x6eu8, 0x74u8, 0x32u8, 0x35u8, 0x36u8]);
            assert(p@ != seq![0x62u8, 0x79u8, 0x74u8, 0x65u8, 0x73u8, 0x33u8, 0x32u8]);
            assert(p@ != seq![0x73u8, 0x74u8, 0x72u8, 0x69u8, 0x6eu8, 0x67u8]);
            assert(p@ != seq![0x62u8, 0x79u8, 0x74u8, 0x65u8, 0x73u8]);
        }
        ParamCategory::Other
    }
}

/// Does `sig` match the analyzed frames?
fn sig_matches(sig: &Vec<u8>, frames: &Vec<Frame>) -> (r: bool)
    ensures
        r == spec_sig_matches(sig@, frames@),
{
    let open = index_of(sig, 0x28);
    if open >= sig.len() || sig[sig.len() - 1] != 0x29 || open + 1 > sig.len() - 1 {
        return false;
    }
    let mut inner: Vec<u8> = Vec::new();
    let mut i: usize = open + 1;
    while i < sig.len() - 1
        invariant
            open + 1 <= i <= sig@.len() - 1,
            inner@ =~= sig@.subrange(open + 1, i as int),
        decreases sig@.len() - i,
    {
        inner.push(sig[i]);
        i = i + 1;
    }
    proof {
        assert(inner@ =~= sig@.subrange(open as int + 1, sig@.len() - 1));
    }
    if inner.len() == 0 {
        return frames.len() == 0;
    }
    let params = split_params(&inner);
    if params.len() != frames.len() {
        return false;
    }
    let ghost ps = spec_sig_params(sig@).unwrap();
    proof {
        assert(ps == params@.map_values(|p: Vec<u8>| p@));
    }
    let mut k: usize = 0;
    while k < params.len()
        invariant
            k <= params@.len(),
            params@.len() == frames@.len(),
            ps == params@.map_values(|p: Vec<u8>| p@),
            spec_sig_params(sig@) == Some(ps),
            ps.len() == frames@.len(),
            forall|j: int|
                0 <= j < k ==> spec_compatible(
                    (#[trigger] frames@[j]).mask_size as nat,
                    spec_category(ps[j]),
                ),
        decreases params@.len() - k,
    {
        let cat = category(&params[k]);
        let mask = frames[k].mask_size;
        let ok = if mask == 1 {
            matches!(cat, ParamCategory::Bool) || matches!(cat, ParamCategory::Uint8) || matches!(
                cat,
                ParamCategory::Int8,
            )
        } else if mask == 20 {
            matches!(cat, ParamCategory::Address)
        } else if mask == 32 {
            matches!(cat, ParamCategory::Uint256) || matches!(cat, ParamCategory::Int256)
                || matches!(cat, ParamCategory::Bytes32) || matches!(cat, ParamCategory::Dynamic)
        } else {
            false
        };
        proof {
            assert(ps[k as int] == params@[k as int]@);
            assert(ok == spec_compatible(frames@[k as int].mask_size as nat, spec_category(
                ps[k as int],
            )));
        }
        if !ok {
            return false;
        }
        k = k + 1;
    }
    true
}

/// Keep exactly the candidates whose parameters match the analyzed
/// function's argument frames, in their given (ranked) order.
pub fn match_parameters(candidates: &Vec<ResolvedSig>, func: &FunctionEntry) -> (r: Vec<
    ResolvedSig,
>)
    ensures
        r@.map_values(|s: ResolvedSig| s@) == candidates@.map_values(
            |s: ResolvedSig| s@,
        ).filter(|sv: Seq<u8>| spec_sig_matches(sv, func.arguments@)),
{
    let ghost pred = |sv: Seq<u8>| spec_sig_matches(sv, func.arguments@);
    let ghost cm = candidates@.map_values(|s: ResolvedSig| s@);
    let mut out: Vec<ResolvedSig> = Vec::new();
    let mut i: usize = 0;
    proof {
        reveal(Seq::filter);
        assert(cm.take(0) =~= Seq::<Seq<u8>>::empty());
        assert(cm.take(0).filter(pred) =~= Seq::<Seq<u8>>::empty());
    }
    while i < candidates.len()
        invariant
            i <= candidates@.len(),
            cm == candidates@.map_values(|s: ResolvedSig| s@),
            (pred == |sv: Seq<u8>| spec_sig_matches(sv, func.arguments@)),
            out@.map_values(|s: ResolvedSig| s@) == cm.take(i as int).filter(pred),
        decreases candidates@.len() - i,
    {
        let ghost pre = out@.map_values(|s: ResolvedSig| s@);
        let hit = sig_matches(&candidates[i].signature, &func.arguments);
        if hit {
            out.push(candidates[i].clone_sig());
        }
        proof {
            reveal(Seq::filter);
            assert(cm.take(i as int + 1).drop_last() =~= cm.take(i as int));
            assert(cm.take(i as int + 1).last() == cm[i as int]);
            assert(cm[i as int] == candidates@[i as int]@);
            if hit {
                assert(out@.map_values(|s: ResolvedSig| s@) =~= pre.push(cm[i as int]));
            }
            assert(out@.map_values(|s: ResolvedSig| s@) =~= cm.take(i as int + 1).filter(pred));
        }
        i = i + 1;
    }
    proof {
        assert(cm.take(cm.len() as int) =~= cm);
    }
    out
}

/// The same match, stated over the emitted mask list instead of the
/// frames — what an output structure carries.
pub open spec fn spec_sig_matches_masks(sig: Seq<u8>, masks: Seq<u8>) -> bool {
    match spec_sig_params(sig) {
        None => false,
        Some(ps) => ps.len() == masks.len() && forall|i: int|
            0 <= i < ps.len() ==> spec_compatible(
                (#[trigger] masks[i]) as nat,
                spec_category(ps[i]),
            ),
    }
}

/// A frame-level match carries over to the mask list read off the
/// frames.
pub proof fn lemma_sig_matches_masks(sig: Seq<u8>, frames: Seq<Frame>, masks: Seq<u8>)
    requires
        spec_sig_matches(sig, frames),
        masks.len() == frames.len(),
        forall|i: int| 0 <= i < masks.len() ==> (#[trigger] masks[i]) == frames[i].mask_size,
    ensures
        spec_sig_matches_masks(sig, masks),
{
    let ps = spec_sig_params(sig).unwrap();
    assert forall|i: int| 0 <= i < ps.len() implies spec_compatible(
        (#[trigger] masks[i]) as nat,
        spec_category(ps[i]),
    ) by {
        assert(spec_compatible(frames[i].mask_size as nat, spec_category(ps[i])));
        assert(masks[i] == frames[i].mask_size);
    }
}

/// Every element of a filtered byte-string sequence comes from the
/// source sequence.
pub proof fn lemma_filter_subset(s: Seq<Seq<u8>>, pred: spec_fn(Seq<u8>) -> bool, i: int)
    requires
        0 <= i < s.filter(pred).len(),
    ensures
        s.contains(s.filter(pred)[i]),
    decreases s.len(),
{
    reveal(Seq::filter);
    if s.len() > 0 {
        let out = s.filter(pred);
        if pred(s.last()) && i == out.len() - 1 {
            assert(out[i] == s.last());
            assert(s[s.len() - 1] == s.last());
        } else {
            lemma_filter_subset(s.drop_last(), pred, i);
            let e = s.drop_last().filter(pred)[i];
            let j = choose|j: int| 0 <= j < s.drop_last().len() && s.drop_last()[j] == e;
            assert(s[j] == e);
            assert(out[i] == e);
        }
    }
}

/// The mask-level match and the frame-level match agree whenever the
/// masks are read off the frames.
pub proof fn lemma_sig_matches_masks_iff(sig: Seq<u8>, frames: Seq<Frame>, masks: Seq<u8>)
    requires
        masks.len() == frames.len(),
        forall|i: int| 0 <= i < masks.len() ==> (#[trigger] masks[i]) == frames[i].mask_size,
    ensures
        spec_sig_matches(sig, frames) <==> spec_sig_matches_masks(sig, masks),
{
    match spec_sig_params(sig) {
        None => {},
        Some(ps) => {
            if spec_sig_matches(sig, frames) {
                lemma_sig_matches_masks(sig, frames, masks);
            }
            if spec_sig_matches_masks(sig, masks) {
                assert forall|i: int| 0 <= i < ps.len() implies spec_compatible(
                    (#[trigger] frames[i]).mask_size as nat,
                    spec_category(ps[i]),
                ) by {
                    assert(spec_compatible(masks[i] as nat, spec_category(ps[i])));
                    assert(masks[i] == frames[i].mask_size);
                }
            }
        },
    }
}

/// Filtering a ranking-sorted sequence keeps it sorted.
pub proof fn lemma_filter_sorted(s: Seq<Seq<u8>>, pred: spec_fn(Seq<u8>) -> bool)
    requires
        forall|a: int, b: int|
            0 <= a < b < s.len() ==> crate::resolve::spec_sig_le(#[trigger] s[a], #[trigger] s[b]),
    ensures
        forall|a: int, b: int|
            0 <= a < b < s.filter(pred).len() ==> crate::resolve::spec_sig_le(
                #[trigger] s.filter(pred)[a],
                #[trigger] s.filter(pred)[b],
            ),
    decreases s.len(),
{
    reveal(Seq::filter);
    if s.len() > 0 {
        let dl = s.drop_last();
        assert forall|a: int, b: int|
            0 <= a < b < dl.len() implies crate::resolve::spec_sig_le(
            #[trigger] dl[a],
            #[trigger] dl[b],
        ) by {
            assert(dl[a] == s[a] && dl[b] == s[b]);
        }
        lemma_filter_sorted(dl, pred);
        let out = s.filter(pred);
        let sub = dl.filter(pred);
        assert forall|a: int, b: int|
            0 <= a < b < out.len() implies crate::resolve::spec_sig_le(
            #[trigger] out[a],
            #[trigger] out[b],
        ) by {
            if pred(s.last()) && b == out.len() - 1 {
                assert(out[b] == s.last());
                assert(out[a] == sub[a]);
                lemma_filter_subset(dl, pred, a);
                let j = choose|j: int| 0 <= j < dl.len() && dl[j] == sub[a];
                assert(s[j] == sub[a]);
                assert(crate::resolve::spec_sig_le(s[j], s[s.len() - 1]));
            } else {
                assert(out[a] == sub[a] && out[b] == sub[b]);
            }
        }
    }
}

} // verus!
