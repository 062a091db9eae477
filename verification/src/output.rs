use vstd::prelude::*;

use crate::analyze::FunctionEntry;
use crate::resolve::{sig_le, spec_sig_le};

verus! {

// Component H: assemble the structured ABI output.  Functions come
// first, sorted by selector ascending; each function's events and errors
// follow as entries of their own, sorted by topic and selector.

#[derive(PartialEq, Eq, Structural, Clone, Copy, Debug)]
pub enum AbiKind {
    Function,
    Event,
    Error,
}

/// How the analyzed flags render as a state mutability.
#[derive(PartialEq, Eq, Structural, Clone, Copy, Debug)]
pub enum Mutability {
    Pure,
    View,
    Payable,
    NonPayable,
}

pub open spec fn spec_mutability(pure: bool, view: bool, payable: bool) -> Mutability {
    if pure {
        Mutability::Pure
    } else if view {
        Mutability::View
    } else if payable {
        Mutability::Payable
    } else {
        Mutability::NonPayable
    }
}

/// One emitted ABI entry.
pub struct ABIStructure {
    pub kind: AbiKind,
    /// The 4-byte selector, 32-byte topic, or the empty fallback
    /// selector.
    pub selector: Vec<u8>,
    /// The resolved text signature, when one was chosen.
    pub signature: Option<Vec<u8>>,
    /// One mask size per argument, in slot order.
    pub input_masks: Vec<u8>,
    pub entry_point: u64,
    pub return_size: Option<u64>,
    pub state_mutability: Mutability,
    /// The exploration budget ran out before this entry's branches were
    /// all walked.
    pub budget_exhausted: bool,
}

/// Sort function entries by selector, ascending.  The selectors come out
/// sorted and are the same multiset that went in.
pub fn sort_functions_by_selector(input: Vec<FunctionEntry>) -> (r: Vec<FunctionEntry>)
    ensures
        r@.len() == input@.len(),
        forall|a: int, b: int|
            0 <= a < b < r@.len() ==> spec_sig_le(
                (#[trigger] r@[a]).selector@,
                (#[trigger] r@[b]).selector@,
            ),
        r@.to_multiset() == input@.to_multiset(),
{
    let ghost vm = input@;
    proof {
        assert(vm.len() == input@.len());
    }
    let n = input.len();
    let mut rest = input;
    proof {
        assert(vm.len() == n);
    }
    let mut out: Vec<FunctionEntry> = Vec::new();
    let mut t: usize = 0;
    proof {
        assert(vm.skip(0) =~= vm);
        assert(vm.take(0) =~= Seq::<FunctionEntry>::empty());
        assert(out@ =~= Seq::<FunctionEntry>::empty());
        assert(out@.to_multiset() =~= vm.take(0).to_multiset());
    }
    while rest.len() > 0
        invariant
            vm.len() <= usize::MAX,
            t <= vm.len(),
            t == vm.len() - rest@.len(),
            rest@ == vm.skip(t as int),
            out@.len() == t,
            forall|a: int, b: int|
                0 <= a < b < out@.len() ==> spec_sig_le(
                    (#[trigger] out@[a]).selector@,
                    (#[trigger] out@[b]).selector@,
                ),
            out@.to_multiset() == vm.take(t as int).to_multiset(),
        decreases rest@.len(),
    {
        let ghost rm0 = rest@;
        let x = rest.remove(0);
        proof {
            assert(x == rm0[0]);
            assert(rm0[0] == vm[t as int]);
            assert(rest@ =~= rm0.drop_first());
            assert(rm0.drop_first() =~= vm.skip(t as int + 1));
        }
        let mut p: usize = 0;
        while p < out.len() && !sig_le(&x.selector, &out[p].selector)
            invariant
                p <= out@.len(),
                forall|j: int|
                    0 <= j < p ==> spec_sig_le((#[trigger] out@[j]).selector@, x.selector@),
                forall|a: int, b: int|
                    0 <= a < b < out@.len() ==> spec_sig_le(
                        (#[trigger] out@[a]).selector@,
                        (#[trigger] out@[b]).selector@,
                    ),
            decreases out@.len() - p,
        {
            proof {
                crate::resolve::lemma_sig_le_total(x.selector@, out@[p as int].selector@);
            }
            p = p + 1;
        }
        let ghost out_before = out@;
        proof {
            if (p as int) < out_before.len() {
                assert(spec_sig_le(x.selector@, out_before[p as int].selector@));
            }
        }
        out.insert(p, x);
        proof {
            assert(out@.remove(p as int) =~= out_before);
            assert(out_before.insert(p as int, out@[p as int]) =~= out@);
            vstd::seq_lib::to_multiset_insert(out_before, p as int, out@[p as int]);
            vstd::seq_lib::to_multiset_build(vm.take(t as int), vm[t as int]);
            assert(vm.take(t as int + 1) =~= vm.take(t as int).push(vm[t as int]));
            assert(out@[p as int] == x);
            assert forall|a: int, b: int|
                0 <= a < b < out@.len() implies spec_sig_le(
                (#[trigger] out@[a]).selector@,
                (#[trigger] out@[b]).selector@,
            ) by {
                if b < p as int {
                    assert(out@[a] == out_before[a] && out@[b] == out_before[b]);
                } else if b == p as int {
                    assert(out@[a] == out_before[a]);
                } else if a == p as int {
                    assert(out@[b] == out_before[b - 1]);
                    if (p as int) < b - 1 {
                        crate::resolve::lemma_sig_le_trans(
                            out@[p as int].selector@,
                            out_before[p as int].selector@,
                            out_before[b - 1].selector@,
                        );
                    }
                } else if a < p as int {
                    assert(out@[a] == out_before[a] && out@[b] == out_before[b - 1]);
                } else {
                    assert(out@[a] == out_before[a - 1] && out@[b] == out_before[b - 1]);
                }
            }
        }
        t = t + 1;
    }
    proof {
        assert(vm.take(vm.len() as int) =~= vm);
    }
    out
}


/// Sort ABI entries by selector bytes, ascending; the result is a
/// sorted permutation of the input.
fn sort_structures_by_selector(input: Vec<ABIStructure>) -> (r: Vec<ABIStructure>)
    ensures
        r@.len() == input@.len(),
        forall|a: int, b: int|
            0 <= a < b < r@.len() ==> spec_sig_le(
                (#[trigger] r@[a]).selector@,
                (#[trigger] r@[b]).selector@,
            ),
        r@.to_multiset() == input@.to_multiset(),
{
    let ghost vm = input@;
    let n = input.len();
    let mut rest = input;
    proof {
        assert(vm.len() == n);
    }
    let mut out: Vec<ABIStructure> = Vec::new();
    let mut t: usize = 0;
    proof {
        assert(vm.skip(0) =~= vm);
        assert(vm.take(0) =~= Seq::<ABIStructure>::empty());
        assert(out@ =~= Seq::<ABIStructure>::empty());
        assert(out@.to_multiset() =~= vm.take(0).to_multiset());
    }
    while rest.len() > 0
        invariant
            vm.len() <= usize::MAX,
            t <= vm.len(),
            t == vm.len() - rest@.len(),
            rest@ == vm.skip(t as int),
            out@.len() == t,
            forall|a: int, b: int|
                0 <= a < b < out@.len() ==> spec_sig_le(
                    (#[trigger] out@[a]).selector@,
                    (#[trigger] out@[b]).selector@,
                ),
            out@.to_multiset() == vm.take(t as int).to_multiset(),
        decreases rest@.len(),
    {
        let ghost rm0 = rest@;
        let x = rest.remove(0);
        proof {
            assert(x == rm0[0]);
            assert(rm0[0] == vm[t as int]);
            assert(rest@ =~= rm0.drop_first());
            assert(rm0.drop_first() =~= vm.skip(t as int + 1));
        }
        let mut p: usize = 0;
        while p < out.len() && !sig_le(&x.selector, &out[p].selector)
            invariant
                p <= out@.len(),
                forall|j: int|
                    0 <= j < p ==> spec_sig_le((#[trigger] out@[j]).selector@, x.selector@),
                forall|a: int, b: int|
                    0 <= a < b < out@.len() ==> spec_sig_le(
                        (#[trigger] out@[a]).selector@,
                        (#[trigger] out@[b]).selector@,
                    ),
            decreases out@.len() - p,
        {
            proof {
                crate::resolve::lemma_sig_le_total(x.selector@, out@[p as int].selector@);
            }
            p = p + 1;
        }
        let ghost out_before = out@;
        proof {
            if (p as int) < out_before.len() {
                assert(spec_sig_le(x.selector@, out_before[p as int].selector@));
            }
        }
        out.insert(p, x);
        proof {
            assert(out@.remove(p as int) =~= out_before);
            assert(out_before.insert(p as int, out@[p as int]) =~= out@);
            vstd::seq_lib::to_multiset_insert(out_before, p as int, out@[p as int]);
            vstd::seq_lib::to_multiset_build(vm.take(t as int), vm[t as int]);
            assert(vm.take(t as int + 1) =~= vm.take(t as int).push(vm[t as int]));
            assert(out@[p as int] == x);
            assert forall|a: int, b: int|
                0 <= a < b < out@.len() implies spec_sig_le(
                (#[trigger] out@[a]).selector@,
                (#[trigger] out@[b]).selector@,
            ) by {
                if b < p as int {
                    assert(out@[a] == out_before[a] && out@[b] == out_before[b]);
                } else if b == p as int {
                    assert(out@[a] == out_before[a]);
                } else if a == p as int {
                    assert(out@[b] == out_before[b - 1]);
                    if (p as int) < b - 1 {
                        crate::resolve::lemma_sig_le_trans(
                            out@[p as int].selector@,
                            out_before[p as int].selector@,
                            out_before[b - 1].selector@,
                        );
                    }
                } else if a < p as int {
                    assert(out@[a] == out_before[a] && out@[b] == out_before[b - 1]);
                } else {
                    assert(out@[a] == out_before[a - 1] && out@[b] == out_before[b - 1]);
                }
            }
        }
        t = t + 1;
    }
    proof {
        assert(vm.take(vm.len() as int) =~= vm);
    }
    out
}

/// Some record of `fs` agrees with the emitted entry.
pub open spec fn spec_some_entry_matches(st: ABIStructure, fs: Seq<FunctionEntry>) -> bool {
    exists|j: int| 0 <= j < fs.len() && spec_fn_entry_matches(st, fs[j])
}

/// The emitted entry for one function agrees with its analyzed record.
pub open spec fn spec_fn_entry_matches(st: ABIStructure, f: FunctionEntry) -> bool {
    &&& st.kind == AbiKind::Function
    &&& st.selector@ == f.selector@
    &&& st.entry_point == f.entry_point
    &&& st.return_size == f.return_size
    &&& st.state_mutability == spec_mutability(f.pure, f.view, f.payable)
    &&& st.input_masks@.len() == f.arguments@.len()
    &&& forall|k: int|
        0 <= k < f.arguments@.len() ==> st.input_masks@[k] == (
        #[trigger] f.arguments@[k]).mask_size
    &&& st.budget_exhausted == f.budget_exhausted
    &&& match f.resolved_function {
        Some(sig) => st.signature is Some && st.signature.unwrap()@ == sig@,
        None => st.signature is None,
    }
}

/// Emit the structured ABI: the functions first, sorted by selector
/// ascending, then an entry per recorded event topic, sorted by topic,
/// then an entry per custom error, sorted by selector.
pub fn build_output(functions: Vec<FunctionEntry>) -> (r: Vec<ABIStructure>)
    ensures
        r@.len() >= functions@.len(),
        forall|a: int, b: int|
            0 <= a < b < functions@.len() ==> spec_sig_le(
                (#[trigger] r@[a]).selector@,
                (#[trigger] r@[b]).selector@,
            ),
        forall|i: int|
            0 <= i < functions@.len() ==> #[trigger] spec_some_entry_matches(
                r@[i],
                functions@,
            ),
        forall|i: int|
            functions@.len() <= i < r@.len() ==> (#[trigger] r@[i]).kind != AbiKind::Function
                && r@[i].signature is None,
        forall|a: int, b: int|
            functions@.len() <= a < b < r@.len() ==> (((#[trigger] r@[a]).kind == AbiKind::Error
                ==> (#[trigger] r@[b]).kind == AbiKind::Error) && (r@[a].kind == r@[b].kind
                ==> spec_sig_le(r@[a].selector@, r@[b].selector@))),
        functions@.len() == 0 ==> r@.len() == 0,
{
    let ghost n = functions@.len();
    let ghost in_views = functions@;
    let mut sorted = sort_functions_by_selector(functions);
    let ghost sorted_views = sorted@;
    proof {
        broadcast use vstd::seq_lib::group_to_multiset_ensures;

        assert forall|j: int| 0 <= j < sorted@.len() implies exists|q: int|
            0 <= q < in_views.len() && #[trigger] sorted@[j] == in_views[q] by {
            assert(sorted@.to_multiset().contains(sorted@[j]));
            assert(in_views.to_multiset().contains(sorted@[j]));
            assert(in_views.contains(sorted@[j]));
            let q = choose|q: int| 0 <= q < in_views.len() && in_views[q] == sorted@[j];
            assert(sorted@[j] == in_views[q]);
        }
    }
    let mut out: Vec<ABIStructure> = Vec::new();
    let mut ev_entries: Vec<ABIStructure> = Vec::new();
    let mut er_entries: Vec<ABIStructure> = Vec::new();
    let mut i: usize = 0;
    while i < sorted.len()
        invariant
            i <= sorted@.len(),
            sorted@ == sorted_views,
            sorted@.len() == n,
            out@.len() == i,
            forall|q: int|
                0 <= q < i ==> spec_fn_entry_matches(#[trigger] out@[q], sorted@[q]),
            forall|a: int, b: int|
                0 <= a < b < n ==> spec_sig_le(
                    (#[trigger] sorted@[a]).selector@,
                    (#[trigger] sorted@[b]).selector@,
                ),
            forall|q: int|
                0 <= q < ev_entries@.len() ==> (#[trigger] ev_entries@[q]).kind == AbiKind::Event
                    && ev_entries@[q].signature is None,
            forall|q: int|
                0 <= q < er_entries@.len() ==> (#[trigger] er_entries@[q]).kind == AbiKind::Error
                    && er_entries@[q].signature is None,
            i == 0 ==> ev_entries@.len() == 0 && er_entries@.len() == 0,
        decreases sorted@.len() - i,
    {
        let f = &sorted[i];
        let mut masks: Vec<u8> = Vec::new();
        let mut k: usize = 0;
        while k < f.arguments.len()
            invariant
                k <= f.arguments@.len(),
                masks@.len() == k,
                forall|q: int|
                    0 <= q < k ==> masks@[q] == (#[trigger] f.arguments@[q]).mask_size,
            decreases f.arguments@.len() - k,
        {
            masks.push(f.arguments[k].mask_size);
            k = k + 1;
        }
        let signature = match &f.resolved_function {
            Some(sig) => Some(sig.clone_sig().signature),
            None => None,
        };
        let st = ABIStructure {
            kind: AbiKind::Function,
            selector: crate::input::copy_bytes(&f.selector),
            signature,
            input_masks: masks,
            entry_point: f.entry_point,
            return_size: f.return_size,
            state_mutability: if f.pure {
                Mutability::Pure
            } else if f.view {
                Mutability::View
            } else if f.payable {
                Mutability::Payable
            } else {
                Mutability::NonPayable
            },
            budget_exhausted: f.budget_exhausted,
        };
        proof {
            assert(spec_fn_entry_matches(st, sorted@[i as int]));
        }
        out.push(st);
        let mut e: usize = 0;
        while e < f.events.len()
            invariant
                e <= f.events@.len(),
                forall|q: int|
                    0 <= q < ev_entries@.len() ==> (#[trigger] ev_entries@[q]).kind
                        == AbiKind::Event && ev_entries@[q].signature is None,
            decreases f.events@.len() - e,
        {
            ev_entries.push(
                ABIStructure {
                    kind: AbiKind::Event,
                    selector: crate::input::copy_bytes(&f.events[e]),
                    signature: None,
                    input_masks: Vec::new(),
                    entry_point: 0,
                    return_size: None,
                    state_mutability: Mutability::NonPayable,
                    budget_exhausted: false,
                },
            );
            e = e + 1;
        }
        let mut w: usize = 0;
        while w < f.errors.len()
            invariant
                w <= f.errors@.len(),
                forall|q: int|
                    0 <= q < er_entries@.len() ==> (#[trigger] er_entries@[q]).kind
                        == AbiKind::Error && er_entries@[q].signature is None,
            decreases f.errors@.len() - w,
        {
            er_entries.push(
                ABIStructure {
                    kind: AbiKind::Error,
                    selector: crate::input::copy_bytes(&f.errors[w]),
                    signature: None,
                    input_masks: Vec::new(),
                    entry_point: 0,
                    return_size: None,
                    state_mutability: Mutability::NonPayable,
                    budget_exhausted: false,
                },
            );
            w = w + 1;
        }
        i = i + 1;
    }
    let ghost ev_views = ev_entries@;
    let ghost er_views = er_entries@;
    let sorted_events = sort_structures_by_selector(ev_entries);
    let sorted_errors = sort_structures_by_selector(er_entries);
    proof {
        broadcast use vstd::seq_lib::group_to_multiset_ensures;

        assert forall|q: int| 0 <= q < sorted_events@.len() implies (
        #[trigger] sorted_events@[q]).kind == AbiKind::Event && sorted_events@[q].signature
            is None by {
            assert(sorted_events@.to_multiset().contains(sorted_events@[q]));
            assert(ev_views.to_multiset().contains(sorted_events@[q]));
            assert(ev_views.contains(sorted_events@[q]));
            let w = choose|w: int| 0 <= w < ev_views.len() && ev_views[w] == sorted_events@[q];
            assert(ev_views[w].kind == AbiKind::Event);
        }
        assert forall|q: int| 0 <= q < sorted_errors@.len() implies (
        #[trigger] sorted_errors@[q]).kind == AbiKind::Error && sorted_errors@[q].signature
            is None by {
            assert(sorted_errors@.to_multiset().contains(sorted_errors@[q]));
            assert(er_views.to_multiset().contains(sorted_errors@[q]));
            assert(er_views.contains(sorted_errors@[q]));
            let w = choose|w: int| 0 <= w < er_views.len() && er_views[w] == sorted_errors@[q];
            assert(er_views[w].kind == AbiKind::Error);
        }
        if n == 0 {
            assert(ev_views.len() == 0 && er_views.len() == 0);
            assert(sorted_events@.len() == 0 && sorted_errors@.len() == 0);
        }
    }
    let ghost ne = sorted_events@.len();
    let mut x: usize = 0;
    while x < sorted_events.len()
        invariant
            x <= ne,
            ne == sorted_events@.len(),
            sorted@ == sorted_views,
            out@.len() == n + x,
            forall|q: int|
                0 <= q < n ==> spec_fn_entry_matches(#[trigger] out@[q], sorted_views[q]),
            forall|a: int, b: int|
                0 <= a < b < n ==> spec_sig_le(
                    (#[trigger] sorted_views[a]).selector@,
                    (#[trigger] sorted_views[b]).selector@,
                ),
            forall|q: int|
                0 <= q < ne ==> (#[trigger] sorted_events@[q]).kind == AbiKind::Event
                    && sorted_events@[q].signature is None,
            forall|a: int, b: int|
                0 <= a < b < ne ==> spec_sig_le(
                    (#[trigger] sorted_events@[a]).selector@,
                    (#[trigger] sorted_events@[b]).selector@,
                ),
            forall|q: int|
                0 <= q < x ==> (#[trigger] out@[n + q]).kind == AbiKind::Event && out@[n
                    + q].signature is None && out@[n + q].selector@
                    == sorted_events@[q].selector@,
        decreases sorted_events@.len() - x,
    {
        let item = extra_at(&sorted_events, x);
        out.push(item);
        x = x + 1;
    }
    let mut y: usize = 0;
    while y < sorted_errors.len()
        invariant
            y <= sorted_errors@.len(),
            ne == sorted_events@.len(),
            sorted@ == sorted_views,
            out@.len() == n + ne + y,
            forall|q: int|
                0 <= q < n ==> spec_fn_entry_matches(#[trigger] out@[q], sorted_views[q]),
            forall|a: int, b: int|
                0 <= a < b < n ==> spec_sig_le(
                    (#[trigger] sorted_views[a]).selector@,
                    (#[trigger] sorted_views[b]).selector@,
                ),
            forall|q: int|
                0 <= q < ne ==> (#[trigger] out@[n + q]).kind == AbiKind::Event && out@[n
                    + q].signature is None && out@[n + q].selector@
                    == sorted_events@[q].selector@,
            forall|a: int, b: int|
                0 <= a < b < ne ==> spec_sig_le(
                    (#[trigger] sorted_events@[a]).selector@,
                    (#[trigger] sorted_events@[b]).selector@,
                ),
            forall|q: int|
                0 <= q < sorted_errors@.len() ==> (#[trigger] sorted_errors@[q]).kind
                    == AbiKind::Error && sorted_errors@[q].signature is None,
            forall|a: int, b: int|
                0 <= a < b < sorted_errors@.len() ==> spec_sig_le(
                    (#[trigger] sorted_errors@[a]).selector@,
                    (#[trigger] sorted_errors@[b]).selector@,
                ),
            forall|q: int|
                0 <= q < y ==> (#[trigger] out@[n + ne + q]).kind == AbiKind::Error && out@[n + ne
                    + q].signature is None && out@[n + ne + q].selector@
                    == sorted_errors@[q].selector@,
        decreases sorted_errors@.len() - y,
    {
        let item = extra_at(&sorted_errors, y);
        out.push(item);
        y = y + 1;
    }
    proof {
        assert(in_views == functions@);
        assert(n == functions@.len());
        assert forall|q: int| 0 <= q < functions@.len() implies #[trigger] spec_some_entry_matches(
            out@[q],
            functions@,
        ) by {
            assert(spec_fn_entry_matches(out@[q], sorted_views[q]));
            assert(sorted@[q] == sorted_views[q]);
            assert(exists|w: int| 0 <= w < in_views.len() && sorted@[q] == in_views[w]);
            let w = choose|w: int| 0 <= w < in_views.len() && sorted@[q] == in_views[w];
            assert(spec_fn_entry_matches(out@[q], in_views[w]));
            assert(in_views[w] == functions@[w]);
        }
        assert forall|a: int, b: int| 0 <= a < b < functions@.len() implies spec_sig_le(
            (#[trigger] out@[a]).selector@,
            (#[trigger] out@[b]).selector@,
        ) by {
            assert(spec_fn_entry_matches(out@[a], sorted_views[a]));
            assert(spec_fn_entry_matches(out@[b], sorted_views[b]));
        }
        assert forall|i2: int|
            functions@.len() <= i2 < out@.len() implies (#[trigger] out@[i2]).kind
            != AbiKind::Function && out@[i2].signature is None by {
            if i2 < n + ne {
                assert(out@[i2].kind == AbiKind::Event) by {
                    assert(out@[n + (i2 - n)].kind == AbiKind::Event);
                }
            } else {
                assert(out@[i2].kind == AbiKind::Error) by {
                    assert(out@[n + ne + (i2 - n - ne)].kind == AbiKind::Error);
                }
            }
        }
        assert forall|a: int, b: int|
            functions@.len() <= a < b < out@.len() implies (((#[trigger] out@[a]).kind
            == AbiKind::Error ==> (#[trigger] out@[b]).kind == AbiKind::Error) && (out@[a].kind
            == out@[b].kind ==> spec_sig_le(out@[a].selector@, out@[b].selector@))) by {
            if b < n + ne {
                assert(out@[n + (a - n)].kind == AbiKind::Event);
                assert(out@[n + (b - n)].kind == AbiKind::Event);
                assert(out@[a].selector@ == sorted_events@[a - n].selector@);
                assert(out@[b].selector@ == sorted_events@[b - n].selector@);
            } else if a < n + ne {
                assert(out@[n + (a - n)].kind == AbiKind::Event);
                assert(out@[n + ne + (b - n - ne)].kind == AbiKind::Error);
            } else {
                assert(out@[n + ne + (a - n - ne)].kind == AbiKind::Error);
                assert(out@[n + ne + (b - n - ne)].kind == AbiKind::Error);
                assert(out@[a].selector@ == sorted_errors@[a - n - ne].selector@);
                assert(out@[b].selector@ == sorted_errors@[b - n - ne].selector@);
            }
        }
    }
    out
}

fn extra_at(extras: &Vec<ABIStructure>, x: usize) -> (r: ABIStructure)
    requires
        x < extras@.len(),
    ensures
        r.kind == extras@[x as int].kind,
        r.selector@ == extras@[x as int].selector@,
        extras@[x as int].signature is None ==> r.signature is None,
{
    let e = &extras[x];
    ABIStructure {
        kind: e.kind,
        selector: crate::input::copy_bytes(&e.selector),
        signature: match &e.signature {
            Some(s) => Some(crate::input::copy_bytes(s)),
            None => None,
        },
        input_masks: crate::input::copy_bytes(&e.input_masks),
        entry_point: e.entry_point,
        return_size: e.return_size,
        state_mutability: e.state_mutability,
        budget_exhausted: e.budget_exhausted,
    }
}

} // verus!
