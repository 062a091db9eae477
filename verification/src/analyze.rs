use vstd::prelude::*;

use crate::input::copy_bytes;
use crate::resolve::ResolvedSig;

verus! {

// Component F: collapse the evidence gathered along all explored branches
// of one function into its function entry.  The collapse is a pure fold,
// stated exactly, so the analyzer's flag discipline — `pure ==> view`,
// `pure`/`view` only ever falling, `payable` only ever rising — is proved
// rather than asserted.

/// Which part of the transaction environment an opcode read.
#[derive(PartialEq, Eq, Structural, Clone, Copy, Debug)]
pub enum EnvKind {
    Caller,
    Origin,
    CallValue,
    Balance,
    SelfBalance,
    GasPrice,
    BaseFee,
    Timestamp,
    Coinbase,
    GasLimit,
    Number,
    ChainId,
    PrevRandao,
}

/// One observation made while stepping a branch.  The executor emits these
/// in discovery order; the collapse below folds them.
pub enum Evidence {
    /// `CALLDATALOAD` at a constant offset: an argument at `slot` read
    /// under a mask of `mask` bytes (32 when unmasked).
    Arg { slot: u64, mask: u8 },
    /// `SLOAD`; the slot when its key was a small constant.
    StorageRead { slot: Option<u64> },
    /// `SSTORE`; the slot when its key was a small constant.
    StorageWrite { slot: Option<u64> },
    /// An environment read.
    EnvRead { kind: EnvKind },
    /// A `LOG*` whose first topic was a 32-byte constant.
    EventTopic { topic: Vec<u8> },
    /// A `REVERT` that carried a 4-byte custom-error selector.
    ErrorSel { selector: Vec<u8> },
    /// `CALL`-family opcode; `with_value` when a nonzero value may flow.
    ExternalCall { with_value: bool },
    /// `CREATE` or `CREATE2`.
    Create,
    /// A branch ended in `RETURN` of `size` bytes; `guard_free` when no
    /// `CALLVALUE` revert guard was seen before it.
    LeafReturn { size: u64, guard_free: bool },
    /// A branch ended in `STOP`.
    LeafStop { guard_free: bool },
    /// A branch ended in `REVERT` or a VM error.
    LeafRevert,
    /// A branch ended in `SELFDESTRUCT`.
    LeafSelfDestruct,
    /// A branch was cut after revisiting a program counter too often.
    LeafLoop,
}

/// Mathematical image of one observation.
#[allow(inconsistent_fields)]
pub enum EvModel {
    Arg { slot: nat, mask: nat },
    StorageRead { slot: Option<nat> },
    StorageWrite { slot: Option<nat> },
    EnvRead { kind: EnvKind },
    EventTopic { topic: Seq<u8> },
    ErrorSel { selector: Seq<u8> },
    ExternalCall { with_value: bool },
    Create,
    LeafReturn { size: nat, guard_free: bool },
    LeafStop { guard_free: bool },
    LeafRevert,
    LeafSelfDestruct,
    LeafLoop,
}

impl View for Evidence {
    type V = EvModel;

    open spec fn view(&self) -> EvModel {
        match self {
            Evidence::Arg { slot, mask } => EvModel::Arg {
                slot: *slot as nat,
                mask: *mask as nat,
            },
            Evidence::StorageRead { slot } => EvModel::StorageRead {
                slot: match slot {
                    Some(s) => Some(*s as nat),
                    None => None,
                },
            },
            Evidence::StorageWrite { slot } => EvModel::StorageWrite {
                slot: match slot {
                    Some(s) => Some(*s as nat),
                    None => None,
                },
            },
            Evidence::EnvRead { kind } => EvModel::EnvRead { kind: *kind },
            Evidence::EventTopic { topic } => EvModel::EventTopic { topic: topic@ },
            Evidence::ErrorSel { selector } => EvModel::ErrorSel { selector: selector@ },
            Evidence::ExternalCall { with_value } => EvModel::ExternalCall {
                with_value: *with_value,
            },
            Evidence::Create => EvModel::Create,
            Evidence::LeafReturn { size, guard_free } => EvModel::LeafReturn {
                size: *size as nat,
                guard_free: *guard_free,
            },
            Evidence::LeafStop { guard_free } => EvModel::LeafStop { guard_free: *guard_free },
            Evidence::LeafRevert => EvModel::LeafRevert,
            Evidence::LeafSelfDestruct => EvModel::LeafSelfDestruct,
            Evidence::LeafLoop => EvModel::LeafLoop,
        }
    }
}

/// The models of an evidence vector.
pub open spec fn spec_evs(evidence: Seq<Evidence>) -> Seq<EvModel> {
    evidence.map_values(|e: Evidence| e@)
}

/// The three mutability flags of a function entry.
#[derive(PartialEq, Eq, Structural, Clone, Copy, Debug)]
pub struct Flags {
    pub pure: bool,
    pub view: bool,
    pub payable: bool,
}

/// The flags every analysis starts from: assumed pure and view until
/// evidence says otherwise; payable only upon proof of acceptance.
pub open spec fn spec_initial_flags() -> Flags {
    Flags { pure: true, view: true, payable: false }
}

/// How one observation downgrades or upgrades the flags.  Whatever drops
/// `view` drops `pure` with it, so `pure ==> view` is preserved.
pub open spec fn spec_flags_step(f: Flags, ev: EvModel) -> Flags {
    match ev {
        EvModel::StorageRead { .. } => Flags { pure: false, ..f },
        EvModel::EnvRead { .. } => Flags { pure: false, ..f },
        EvModel::StorageWrite { .. } => Flags { pure: false, view: false, ..f },
        EvModel::EventTopic { .. } => Flags { pure: false, view: false, ..f },
        EvModel::Create => Flags { pure: false, view: false, ..f },
        EvModel::LeafSelfDestruct => Flags { pure: false, view: false, ..f },
        EvModel::ExternalCall { with_value } => if with_value {
            Flags { pure: false, view: false, ..f }
        } else {
            Flags { pure: false, ..f }
        },
        EvModel::LeafReturn { guard_free, .. } => if guard_free {
            Flags { payable: true, ..f }
        } else {
            f
        },
        EvModel::LeafStop { guard_free } => if guard_free {
            Flags { payable: true, ..f }
        } else {
            f
        },
        _ => f,
    }
}

/// The flags after folding a whole evidence sequence.
pub open spec fn spec_fold_flags(evs: Seq<EvModel>) -> Flags
    decreases evs.len(),
{
    if evs.len() == 0 {
        spec_initial_flags()
    } else {
        spec_flags_step(spec_fold_flags(evs.drop_last()), evs.last())
    }
}

/// One step keeps `pure ==> view`, never raises `pure` or `view`, and
/// never lowers `payable`.
pub proof fn lemma_flags_step_monotone(f: Flags, ev: EvModel)
    ensures
        spec_flags_step(f, ev).pure ==> f.pure,
        spec_flags_step(f, ev).view ==> f.view,
        f.payable ==> spec_flags_step(f, ev).payable,
        (f.pure ==> f.view) ==> (spec_flags_step(f, ev).pure ==> spec_flags_step(f, ev).view),
{
}

/// Across the whole traversal the flags move one way only: `pure` and
/// `view` are monotone non-increasing, `payable` monotone non-decreasing,
/// between any earlier and later prefix of the evidence.
pub proof fn lemma_fold_flags_monotone(evs: Seq<EvModel>, i: int, j: int)
    requires
        0 <= i <= j <= evs.len(),
    ensures
        spec_fold_flags(evs.take(j)).pure ==> spec_fold_flags(evs.take(i)).pure,
        spec_fold_flags(evs.take(j)).view ==> spec_fold_flags(evs.take(i)).view,
        spec_fold_flags(evs.take(i)).payable ==> spec_fold_flags(evs.take(j)).payable,
    decreases j - i,
{
    if i < j {
        lemma_fold_flags_monotone(evs, i, j - 1);
        assert(evs.take(j).drop_last() =~= evs.take(j - 1));
        lemma_flags_step_monotone(spec_fold_flags(evs.take(j - 1)), evs.take(j).last());
    }
}

/// Every fold of analyzer evidence satisfies the entry invariant
/// `pure ==> view`.
pub proof fn lemma_fold_flags_pure_implies_view(evs: Seq<EvModel>)
    ensures
        spec_fold_flags(evs).pure ==> spec_fold_flags(evs).view,
    decreases evs.len(),
{
    if evs.len() > 0 {
        lemma_fold_flags_pure_implies_view(evs.drop_last());
        lemma_flags_step_monotone(spec_fold_flags(evs.drop_last()), evs.last());
    }
}

/// The argument masks implied by an evidence prefix: for each slot read
/// at a constant offset, the smallest mask observed for it.
pub open spec fn spec_arg_masks(evs: Seq<EvModel>) -> Map<nat, nat>
    decreases evs.len(),
{
    if evs.len() == 0 {
        Map::empty()
    } else {
        let m = spec_arg_masks(evs.drop_last());
        match evs.last() {
            EvModel::Arg { slot, mask } => m.insert(
                slot,
                if m.contains_key(slot) && m[slot] <= mask {
                    m[slot]
                } else {
                    mask
                },
            ),
            _ => m,
        }
    }
}

/// The storage slots registered by an evidence sequence: every constant
/// `SLOAD`/`SSTORE` key.
pub open spec fn spec_storage_slots(evs: Seq<EvModel>) -> Set<nat>
    decreases evs.len(),
{
    if evs.len() == 0 {
        Set::empty()
    } else {
        let s = spec_storage_slots(evs.drop_last());
        match evs.last() {
            EvModel::StorageRead { slot: Some(k) } => s.insert(k),
            EvModel::StorageWrite { slot: Some(k) } => s.insert(k),
            _ => s,
        }
    }
}

/// The constant first topics of emitted events, in first-seen order,
/// duplicates collapsed.
pub open spec fn spec_event_topics(evs: Seq<EvModel>) -> Seq<Seq<u8>>
    decreases evs.len(),
{
    if evs.len() == 0 {
        Seq::empty()
    } else {
        let p = spec_event_topics(evs.drop_last());
        match evs.last() {
            EvModel::EventTopic { topic } => if p.contains(topic) {
                p
            } else {
                p.push(topic)
            },
            _ => p,
        }
    }
}

/// The custom-error selectors seen at reverts, in first-seen order,
/// duplicates collapsed.
pub open spec fn spec_error_sels(evs: Seq<EvModel>) -> Seq<Seq<u8>>
    decreases evs.len(),
{
    if evs.len() == 0 {
        Seq::empty()
    } else {
        let p = spec_error_sels(evs.drop_last());
        match evs.last() {
            EvModel::ErrorSel { selector } => if p.contains(selector) {
                p
            } else {
                p.push(selector)
            },
            _ => p,
        }
    }
}

/// The storage slots with constant keys, in first-seen order, duplicates
/// collapsed — the enumeration order of the record's storage list.
pub open spec fn spec_storage_order(evs: Seq<EvModel>) -> Seq<nat>
    decreases evs.len(),
{
    if evs.len() == 0 {
        Seq::empty()
    } else {
        let p = spec_storage_order(evs.drop_last());
        match evs.last() {
            EvModel::StorageRead { slot: Some(k) } => if p.contains(k) {
                p
            } else {
                p.push(k)
            },
            EvModel::StorageWrite { slot: Some(k) } => if p.contains(k) {
                p
            } else {
                p.push(k)
            },
            _ => p,
        }
    }
}

/// The usage tags a mask size earns.
pub open spec fn spec_mask_tags(mask: u8) -> Seq<ArgHeuristic> {
    if mask == 20 {
        seq![ArgHeuristic::AddressLike]
    } else if mask == 1 {
        seq![ArgHeuristic::BoolLike]
    } else {
        Seq::empty()
    }
}

/// The return shape: the widest `RETURN` size over all returning leaves,
/// `None` when no branch returned data.
pub open spec fn spec_widest_return(evs: Seq<EvModel>) -> Option<nat>
    decreases evs.len(),
{
    if evs.len() == 0 {
        None
    } else {
        let r = spec_widest_return(evs.drop_last());
        match evs.last() {
            EvModel::LeafReturn { size, .. } => match r {
                None => Some(size),
                Some(w) => Some(if w >= size {
                    w
                } else {
                    size
                }),
            },
            _ => r,
        }
    }
}

/// The recorded return shape agrees with the fold's answer.
pub open spec fn spec_return_matches(r: Option<u64>, w: Option<nat>) -> bool {
    match w {
        None => r is None,
        Some(n) => r is Some && r.unwrap() as nat == n,
    }
}

/// One argument of a function entry.
pub struct Frame {
    /// Calldata slot index.
    pub slot: u64,
    /// Mask size in bytes, 1 to 32.
    pub mask_size: u8,
    /// Usage tags, in the order they were derived.
    pub heuristics: Vec<ArgHeuristic>,
}

#[derive(PartialEq, Eq, Structural, Clone, Copy, Debug)]
pub enum ArgHeuristic {
    /// Masked to 20 bytes: used as an address.
    AddressLike,
    /// Masked to a single byte: used as a boolean or tiny integer.
    BoolLike,
}

/// A decompiled function entry.
pub struct FunctionEntry {
    /// The four selector bytes.
    pub selector: Vec<u8>,
    /// Byte offset of the function body; 0 marks a false positive.
    pub entry_point: u64,
    /// Arguments, sorted by slot, one entry per slot.
    pub arguments: Vec<Frame>,
    /// Storage slots touched, in first-seen order, no duplicates.
    pub storage: Vec<u64>,
    /// Widest returned size, when any branch returns data.
    pub return_size: Option<u64>,
    /// Constant first topics of emitted events, first-seen order.
    pub events: Vec<Vec<u8>>,
    /// Custom-error selectors seen in reverts, first-seen order.
    pub errors: Vec<Vec<u8>>,
    /// The signature chosen for this entry, once resolved.
    pub resolved_function: Option<ResolvedSig>,
    pub pure: bool,
    pub view: bool,
    pub payable: bool,
    /// The exploration budget ran out before all branches were walked.
    pub budget_exhausted: bool,
}

impl FunctionEntry {
    /// The entry invariant: a pure function is a view function, and the
    /// argument list is sorted strictly by slot.
    pub open spec fn wf(&self) -> bool {
        &&& (self.pure ==> self.view)
        &&& forall|a: int, b: int|
            0 <= a < b < self.arguments@.len() ==> (#[trigger] self.arguments@[a]).slot < (
            #[trigger] self.arguments@[b]).slot
    }
}

/// Collapse an evidence sequence into a function entry.  The flags are
/// exactly the evidence fold; the arguments carry exactly the minimal
/// observed masks, sorted by slot; the storage list enumerates exactly
/// the registered slots; the return shape is the widest returning leaf.
pub fn collapse_evidence(
    selector: Vec<u8>,
    entry_point: u64,
    evidence: &Vec<Evidence>,
    budget_exhausted: bool,
) -> (r: FunctionEntry)
    ensures
        r.wf(),
        r.selector@ == selector@,
        r.entry_point == entry_point,
        r.budget_exhausted == budget_exhausted,
        r.resolved_function is None,
        (Flags { pure: r.pure, view: r.view, payable: r.payable }) == spec_fold_flags(
            spec_evs(evidence@),
        ),
        forall|i: int|
            0 <= i < r.arguments@.len() ==> {
                let f = #[trigger] r.arguments@[i];
                &&& spec_arg_masks(spec_evs(evidence@)).contains_key(
                    f.slot as nat,
                )
                &&& f.mask_size as nat == spec_arg_masks(spec_evs(evidence@))[
                    f.slot as nat]
            },
        forall|s: nat|
            #[trigger] spec_arg_masks(spec_evs(evidence@)).contains_key(s)
                ==> exists|i: int|
                0 <= i < r.arguments@.len() && (#[trigger] r.arguments@[i]).slot as nat == s,
        forall|i: int|
            0 <= i < r.storage@.len() ==> spec_storage_slots(
                spec_evs(evidence@),
            ).contains(#[trigger] r.storage@[i] as nat),
        forall|s: nat|
            #[trigger] spec_storage_slots(spec_evs(evidence@)).contains(s)
                ==> exists|i: int|
                0 <= i < r.storage@.len() && (#[trigger] r.storage@[i]) as nat == s,
        spec_return_matches(r.return_size, spec_widest_return(spec_evs(evidence@))),
        r.events@.map_values(|b: Vec<u8>| b@) == spec_event_topics(spec_evs(evidence@)),
        r.errors@.map_values(|b: Vec<u8>| b@) == spec_error_sels(spec_evs(evidence@)),
        r.storage@.map_values(|x: u64| x as nat) == spec_storage_order(spec_evs(evidence@)),
        spec_frames_tagged(r.arguments@),
        spec_collapse_post(spec_evs(evidence@), r),
{
    let ghost evs = spec_evs(evidence@);
    let mut flags = Flags { pure: true, view: true, payable: false };
    let mut args: Vec<Frame> = Vec::new();
    let mut storage: Vec<u64> = Vec::new();
    let mut return_size: Option<u64> = None;
    let mut events: Vec<Vec<u8>> = Vec::new();
    let mut errors: Vec<Vec<u8>> = Vec::new();
    let mut t: usize = 0;
    proof {
        assert(evs.take(0) =~= Seq::<EvModel>::empty());
    }
    while t < evidence.len()
        invariant
            t <= evidence@.len(),
            evs == spec_evs(evidence@),
            flags == spec_fold_flags(evs.take(t as int)),
            forall|a: int, b: int|
                0 <= a < b < args@.len() ==> (#[trigger] args@[a]).slot < (
                #[trigger] args@[b]).slot,
            spec_frames_tagged(args@),
            forall|i: int|
                0 <= i < args@.len() ==> {
                    let f = #[trigger] args@[i];
                    &&& spec_arg_masks(evs.take(t as int)).contains_key(f.slot as nat)
                    &&& f.mask_size as nat == spec_arg_masks(evs.take(t as int))[f.slot as nat]
                },
            forall|s: nat|
                #[trigger] spec_arg_masks(evs.take(t as int)).contains_key(s) ==> exists|i: int|
                    0 <= i < args@.len() && (#[trigger] args@[i]).slot as nat == s,
            forall|i: int|
                0 <= i < storage@.len() ==> spec_storage_slots(evs.take(t as int)).contains(
                    #[trigger] storage@[i] as nat,
                ),
            forall|s: nat|
                #[trigger] spec_storage_slots(evs.take(t as int)).contains(s) ==> exists|i: int|
                    0 <= i < storage@.len() && (#[trigger] storage@[i]) as nat == s,
            spec_return_matches(return_size, spec_widest_return(evs.take(t as int))),
            events@.map_values(|b: Vec<u8>| b@) == spec_event_topics(evs.take(t as int)),
            errors@.map_values(|b: Vec<u8>| b@) == spec_error_sels(evs.take(t as int)),
            storage@.map_values(|x: u64| x as nat) == spec_storage_order(evs.take(t as int)),
        decreases evidence@.len() - t,
    {
        proof {
            assert(evs.take(t as int + 1).drop_last() =~= evs.take(t as int));
            assert(evs.take(t as int + 1).last() == evs[t as int]);
            assert(evs[t as int] == evidence@[t as int]@);
        }
        let ghost pre_masks = spec_arg_masks(evs.take(t as int));
        let ghost post_masks = spec_arg_masks(evs.take(t as int + 1));
        let ghost pre_slots = spec_storage_slots(evs.take(t as int));
        let ghost post_slots = spec_storage_slots(evs.take(t as int + 1));
        match &evidence[t] {
            Evidence::Arg { slot, mask } => {
                proof {
                    assert(post_masks == pre_masks.insert(
                        *slot as nat,
                        if pre_masks.contains_key(*slot as nat) && pre_masks[*slot as nat] <= *mask
                            as nat {
                            pre_masks[*slot as nat]
                        } else {
                            *mask as nat
                        },
                    ));
                }
                upsert_frame(&mut args, *slot, *mask, Ghost(pre_masks));
            },
            Evidence::StorageRead { slot } => {
                flags = Flags { pure: false, ..flags };
                if let Some(s) = slot {
                    proof {
                        assert(post_slots =~= pre_slots.insert(*s as nat));
                        let p = storage@.map_values(|x: u64| x as nat);
                        assert(p.contains(*s as nat) <==> storage@.contains(*s)) by {
                            if p.contains(*s as nat) {
                                let w = choose|w: int| 0 <= w < p.len() && p[w] == *s as nat;
                                assert(storage@[w] as nat == *s as nat);
                                assert(storage@[w] == *s);
                            }
                            if storage@.contains(*s) {
                                let w = choose|w: int|
                                    0 <= w < storage@.len() && storage@[w] == *s;
                                assert(p[w] == *s as nat);
                            }
                        }
                    }
                    let ghost pre_list = storage@;
                    record_slot(&mut storage, *s, Ghost(pre_slots));
                    proof {
                        if !pre_list.contains(*s) {
                            assert(storage@.map_values(|x: u64| x as nat) =~= pre_list.map_values(
                                |x: u64| x as nat,
                            ).push(*s as nat));
                        }
                        assert(storage@.map_values(|x: u64| x as nat) == spec_storage_order(
                            evs.take(t as int + 1),
                        ));
                    }
                }
            },
            Evidence::StorageWrite { slot } => {
                flags = Flags { pure: false, view: false, ..flags };
                if let Some(s) = slot {
                    proof {
                        assert(post_slots =~= pre_slots.insert(*s as nat));
                        let p = storage@.map_values(|x: u64| x as nat);
                        assert(p.contains(*s as nat) <==> storage@.contains(*s)) by {
                            if p.contains(*s as nat) {
                                let w = choose|w: int| 0 <= w < p.len() && p[w] == *s as nat;
                                assert(storage@[w] as nat == *s as nat);
                                assert(storage@[w] == *s);
                            }
                            if storage@.contains(*s) {
                                let w = choose|w: int|
                                    0 <= w < storage@.len() && storage@[w] == *s;
                                assert(p[w] == *s as nat);
                            }
                        }
                    }
                    let ghost pre_list = storage@;
                    record_slot(&mut storage, *s, Ghost(pre_slots));
                    proof {
                        if !pre_list.contains(*s) {
                            assert(storage@.map_values(|x: u64| x as nat) =~= pre_list.map_values(
                                |x: u64| x as nat,
                            ).push(*s as nat));
                        }
                        assert(storage@.map_values(|x: u64| x as nat) == spec_storage_order(
                            evs.take(t as int + 1),
                        ));
                    }
                }
            },
            Evidence::EnvRead { .. } => {
                flags = Flags { pure: false, ..flags };
            },
            Evidence::EventTopic { topic } => {
                flags = Flags { pure: false, view: false, ..flags };
                push_unique_bytes(&mut events, topic);
            },
            Evidence::ErrorSel { selector: es } => {
                push_unique_bytes(&mut errors, es);
            },
            Evidence::ExternalCall { with_value } => {
                if *with_value {
                    flags = Flags { pure: false, view: false, ..flags };
                } else {
                    flags = Flags { pure: false, ..flags };
                }
            },
            Evidence::Create => {
                flags = Flags { pure: false, view: false, ..flags };
            },
            Evidence::LeafReturn { size, guard_free } => {
                if *guard_free {
                    flags = Flags { payable: true, ..flags };
                }
                return_size = match return_size {
                    None => Some(*size),
                    Some(w) => Some(if w >= *size {
                        w
                    } else {
                        *size
                    }),
                };
            },
            Evidence::LeafStop { guard_free } => {
                if *guard_free {
                    flags = Flags { payable: true, ..flags };
                }
            },
            Evidence::LeafRevert => {
                flags = flags;
            },
            Evidence::LeafSelfDestruct => {
                flags = Flags { pure: false, view: false, ..flags };
            },
            Evidence::LeafLoop => {
                flags = flags;
            },
        }
        t = t + 1;
    }
    proof {
        assert(evs.take(evs.len() as int) =~= evs);
        assert(evs.take(t as int) == evs);
        lemma_fold_flags_pure_implies_view(evs);
    }
    let r = FunctionEntry {
        selector,
        entry_point,
        arguments: args,
        storage,
        return_size,
        events,
        errors,
        resolved_function: None,
        pure: flags.pure,
        view: flags.view,
        payable: flags.payable,
        budget_exhausted,
    };
    proof {
        assert forall|s: nat|
            #[trigger] spec_storage_slots(spec_evs(evidence@)).contains(s) implies exists|i: int|
            0 <= i < r.storage@.len() && (#[trigger] r.storage@[i]) as nat == s by {
            assert(spec_storage_slots(evs.take(t as int)).contains(s));
            let w = choose|i: int|
                0 <= i < storage@.len() && (#[trigger] storage@[i]) as nat == s;
            assert(r.storage@[w] as nat == s);
        }
        assert forall|s: nat|
            #[trigger] spec_arg_masks(spec_evs(evidence@)).contains_key(s) implies exists|i: int|
            0 <= i < r.arguments@.len() && (#[trigger] r.arguments@[i]).slot as nat == s by {
            assert(spec_arg_masks(evs.take(t as int)).contains_key(s));
            let w = choose|i: int|
                0 <= i < args@.len() && (#[trigger] args@[i]).slot as nat == s;
            assert(r.arguments@[w].slot as nat == s);
        }
    }
    r
}

/// The frames reflect the mask map exactly: each frame carries the map's
/// mask for its slot, and every mapped slot has a frame.
pub open spec fn spec_frames_match(frames: Seq<Frame>, m: Map<nat, nat>) -> bool {
    &&& forall|i: int|
        0 <= i < frames.len() ==> {
            let f = #[trigger] frames[i];
            &&& m.contains_key(f.slot as nat)
            &&& f.mask_size as nat == m[f.slot as nat]
        }
    &&& forall|s: nat|
        #[trigger] m.contains_key(s) ==> exists|i: int|
            0 <= i < frames.len() && (#[trigger] frames[i]).slot as nat == s
}

/// Every frame's tags are exactly its mask's tags.
pub open spec fn spec_frames_tagged(frames: Seq<Frame>) -> bool {
    forall|i: int|
        0 <= i < frames.len() ==> (#[trigger] frames[i]).heuristics@ == spec_mask_tags(
            frames[i].mask_size,
        )
}

/// Strictly sorted by slot.
pub open spec fn spec_frames_sorted(frames: Seq<Frame>) -> bool {
    forall|a: int, b: int|
        0 <= a < b < frames.len() ==> (#[trigger] frames[a]).slot < (#[trigger] frames[b]).slot
}

/// Register one observed argument read: insert the slot, or lower the
/// recorded mask to the smaller observation.
fn upsert_frame(args: &mut Vec<Frame>, slot: u64, mask: u8, Ghost(m): Ghost<Map<nat, nat>>)
    requires
        spec_frames_sorted(old(args)@),
        spec_frames_match(old(args)@, m),
        spec_frames_tagged(old(args)@),
    ensures
        spec_frames_sorted(final(args)@),
        spec_frames_tagged(final(args)@),
        spec_frames_match(
            final(args)@,
            m.insert(
                slot as nat,
                if m.contains_key(slot as nat) && m[slot as nat] <= mask as nat {
                    m[slot as nat]
                } else {
                    mask as nat
                },
            ),
        ),
{
    let ghost m2 = m.insert(
        slot as nat,
        if m.contains_key(slot as nat) && m[slot as nat] <= mask as nat {
            m[slot as nat]
        } else {
            mask as nat
        },
    );
    let mut k: usize = 0;
    while k < args.len()
        invariant
            k <= args@.len(),
            args@ == old(args)@,
            spec_frames_sorted(args@),
            spec_frames_match(args@, m),
            spec_frames_tagged(args@),
            (m2 == m.insert(
                slot as nat,
                if m.contains_key(slot as nat) && m[slot as nat] <= mask as nat {
                    m[slot as nat]
                } else {
                    mask as nat
                },
            )),
            forall|j: int| 0 <= j < k ==> (#[trigger] args@[j]).slot < slot,
        decreases args@.len() - k,
    {
        if args[k].slot == slot {
            proof {
                assert(args@[k as int].mask_size as nat == m[slot as nat]);
            }
            if mask < args[k].mask_size {
                let h = frame_heuristics(mask);
                let _ = args.remove(k);
                args.insert(k, Frame { slot, mask_size: mask, heuristics: h });
                proof {
                    assert(args@ =~= old(args)@.update(k as int, args@[k as int]));
                }
            }
            proof {
                assert(forall|i: int|
                    0 <= i < args@.len() ==> (#[trigger] args@[i]).slot == old(args)@[i].slot);
                assert forall|i: int| 0 <= i < args@.len() implies (
                #[trigger] args@[i]).heuristics@ == spec_mask_tags(args@[i].mask_size) by {
                    if i != k as int {
                        assert(args@[i] == old(args)@[i]);
                    }
                }
                assert forall|i: int| 0 <= i < args@.len() implies {
                    let f = #[trigger] args@[i];
                    &&& m2.contains_key(f.slot as nat)
                    &&& f.mask_size as nat == m2[f.slot as nat]
                } by {
                    if i != k as int {
                        assert(args@[i] == old(args)@[i]);
                        if i < k as int {
                            assert(old(args)@[i].slot < slot);
                        } else {
                            assert(old(args)@[k as int].slot < old(args)@[i].slot);
                        }
                    }
                }
                assert forall|s: nat| m2.contains_key(s) implies exists|i: int|
                    0 <= i < args@.len() && (#[trigger] args@[i]).slot as nat == s by {
                    if s == slot as nat {
                        assert(args@[k as int].slot as nat == s);
                    } else {
                        assert(m.contains_key(s));
                        let w = choose|i: int|
                            0 <= i < old(args)@.len() && (#[trigger] old(args)@[i]).slot as nat
                                == s;
                        assert(args@[w].slot as nat == s);
                    }
                }
            }
            return ;
        } else if args[k].slot > slot {
            let h = frame_heuristics(mask);
            args.insert(k, Frame { slot, mask_size: mask, heuristics: h });
            proof {
                assert(!m.contains_key(slot as nat)) by {
                    if m.contains_key(slot as nat) {
                        let w = choose|i: int|
                            0 <= i < old(args)@.len() && (#[trigger] old(args)@[i]).slot as nat
                                == slot as nat;
                        if w < k as int {
                            assert(old(args)@[w].slot < slot);
                        } else {
                            assert(old(args)@[k as int].slot <= old(args)@[w].slot);
                        }
                    }
                }
                assert forall|a: int, b: int|
                    0 <= a < b < args@.len() implies (#[trigger] args@[a]).slot < (
                #[trigger] args@[b]).slot by {
                    if b < k as int {
                    } else if a < k as int && b == k as int {
                        assert(args@[a] == old(args)@[a]);
                    } else if a == k as int {
                        assert(args@[b] == old(args)@[b - 1]);
                        assert(old(args)@[k as int].slot <= old(args)@[b - 1].slot);
                    } else if a > k as int {
                        assert(args@[a] == old(args)@[a - 1]);
                        assert(args@[b] == old(args)@[b - 1]);
                    } else {
                        assert(args@[a] == old(args)@[a]);
                        assert(args@[b] == old(args)@[b - 1]);
                        assert(old(args)@[a].slot < slot || a == k as int);
                    }
                }
                assert forall|s: nat| m2.contains_key(s) implies exists|i: int|
                    0 <= i < args@.len() && (#[trigger] args@[i]).slot as nat == s by {
                    if s == slot as nat {
                        assert(args@[k as int].slot as nat == s);
                    } else {
                        assert(m.contains_key(s));
                        let w = choose|i: int|
                            0 <= i < old(args)@.len() && (#[trigger] old(args)@[i]).slot as nat
                                == s;
                        if w < k as int {
                            assert(args@[w].slot as nat == s);
                        } else {
                            assert(args@[w + 1].slot as nat == s);
                        }
                    }
                }
                assert forall|i: int| 0 <= i < args@.len() implies {
                    let f = #[trigger] args@[i];
                    &&& m2.contains_key(f.slot as nat)
                    &&& f.mask_size as nat == m2[f.slot as nat]
                } by {
                    if i < k as int {
                        assert(args@[i] == old(args)@[i]);
                    } else if i > k as int {
                        assert(args@[i] == old(args)@[i - 1]);
                    }
                }
                assert forall|i: int| 0 <= i < args@.len() implies (
                #[trigger] args@[i]).heuristics@ == spec_mask_tags(args@[i].mask_size) by {
                    if i < k as int {
                        assert(args@[i] == old(args)@[i]);
                    } else if i > k as int {
                        assert(args@[i] == old(args)@[i - 1]);
                    }
                }
            }
            return ;
        }
        k = k + 1;
    }
    args.push(Frame { slot, mask_size: mask, heuristics: frame_heuristics(mask) });
    proof {
        assert(!m.contains_key(slot as nat)) by {
            if m.contains_key(slot as nat) {
                let w = choose|i: int|
                    0 <= i < old(args)@.len() && (#[trigger] old(args)@[i]).slot as nat == slot
                        as nat;
                assert(old(args)@[w].slot < slot);
            }
        }
        assert forall|s: nat| m2.contains_key(s) implies exists|i: int|
            0 <= i < args@.len() && (#[trigger] args@[i]).slot as nat == s by {
            if s == slot as nat {
                assert(args@[args@.len() - 1].slot as nat == s);
            } else {
                assert(m.contains_key(s));
                let w = choose|i: int|
                    0 <= i < old(args)@.len() && (#[trigger] old(args)@[i]).slot as nat == s;
                assert(args@[w].slot as nat == s);
            }
        }
    }
}

/// Usage tags derived from a mask size.
fn frame_heuristics(mask: u8) -> (r: Vec<ArgHeuristic>)
    ensures
        r@ == spec_mask_tags(mask),
{
    let mut h: Vec<ArgHeuristic> = Vec::new();
    if mask == 20 {
        h.push(ArgHeuristic::AddressLike);
    }
    if mask == 1 {
        h.push(ArgHeuristic::BoolLike);
    }
    proof {
        assert(h@ =~= spec_mask_tags(mask));
    }
    h
}

/// Record a touched storage slot, keeping first-seen order and no
/// duplicates: afterwards the list enumerates exactly `pre` plus the
/// slot.
fn record_slot(storage: &mut Vec<u64>, v: u64, Ghost(pre): Ghost<Set<nat>>)
    requires
        forall|i: int|
            0 <= i < old(storage)@.len() ==> pre.contains((#[trigger] old(storage)@[i]) as nat),
        forall|s: nat|
            #[trigger] pre.contains(s) ==> exists|i: int|
                0 <= i < old(storage)@.len() && (#[trigger] old(storage)@[i]) as nat == s,
    ensures
        forall|i: int|
            0 <= i < final(storage)@.len() ==> pre.insert(v as nat).contains(
                (#[trigger] final(storage)@[i]) as nat,
            ),
        forall|s: nat|
            #[trigger] pre.insert(v as nat).contains(s) ==> exists|i: int|
                0 <= i < final(storage)@.len() && (#[trigger] final(storage)@[i]) as nat == s,
        final(storage)@ == (if old(storage)@.contains(v) {
            old(storage)@
        } else {
            old(storage)@.push(v)
        }),
{
    let mut i: usize = 0;
    while i < storage.len()
        invariant
            i <= storage@.len(),
            storage@ == old(storage)@,
            forall|q: int| 0 <= q < storage@.len() ==> pre.contains((#[trigger] storage@[q]) as nat),
            forall|s: nat|
                #[trigger] pre.contains(s) ==> exists|q: int|
                    0 <= q < storage@.len() && (#[trigger] storage@[q]) as nat == s,
            forall|j: int| 0 <= j < i ==> (#[trigger] storage@[j]) != v,
        decreases storage@.len() - i,
    {
        if storage[i] == v {
            proof {
                assert(storage@[i as int] == v);
                assert forall|s: nat| #[trigger] pre.insert(v as nat).contains(s) implies exists|
                    q: int,
                |
                    0 <= q < storage@.len() && (#[trigger] storage@[q]) as nat == s by {
                    if s == v as nat {
                        assert(storage@[i as int] as nat == s);
                    } else {
                        assert(pre.contains(s));
                    }
                }
                assert forall|q: int| 0 <= q < storage@.len() implies pre.insert(
                    v as nat,
                ).contains((#[trigger] storage@[q]) as nat) by {
                    assert(pre.contains(storage@[q] as nat));
                }
            }
            return ;
        }
        i = i + 1;
    }
    storage.push(v);
    proof {
        assert forall|s: nat| #[trigger] pre.insert(v as nat).contains(s) implies exists|q: int|
            0 <= q < storage@.len() && (#[trigger] storage@[q]) as nat == s by {
            if s == v as nat {
                assert(storage@[storage@.len() - 1] as nat == s);
            } else {
                assert(pre.contains(s));
                let w = choose|q: int|
                    0 <= q < old(storage)@.len() && (#[trigger] old(storage)@[q]) as nat == s;
                assert(storage@[w] as nat == s);
            }
        }
        assert forall|q: int| 0 <= q < storage@.len() implies pre.insert(v as nat).contains(
            (#[trigger] storage@[q]) as nat,
        ) by {
            if q < storage@.len() - 1 {
                assert(pre.contains(storage@[q] as nat));
            }
        }
    }
}

/// Append `v` unless equal bytes are already present: afterwards the
/// list is the old list, extended by `v` exactly when it was absent.
fn push_unique_bytes(vec: &mut Vec<Vec<u8>>, v: &Vec<u8>)
    ensures
        final(vec)@.map_values(|b: Vec<u8>| b@) == (if old(vec)@.map_values(
            |b: Vec<u8>| b@,
        ).contains(v@) {
            old(vec)@.map_values(|b: Vec<u8>| b@)
        } else {
            old(vec)@.map_values(|b: Vec<u8>| b@).push(v@)
        }),
{
    let ghost m = vec@.map_values(|b: Vec<u8>| b@);
    let mut i: usize = 0;
    while i < vec.len()
        invariant
            i <= vec@.len(),
            vec@ == old(vec)@,
            m == vec@.map_values(|b: Vec<u8>| b@),
            forall|j: int| 0 <= j < i ==> #[trigger] m[j] != v@,
        decreases vec@.len() - i,
    {
        if crate::word::bytes_eq(&vec[i], v) {
            proof {
                assert(m[i as int] == v@);
                assert(m.contains(v@));
            }
            return ;
        }
        i = i + 1;
    }
    proof {
        assert(!m.contains(v@)) by {
            if m.contains(v@) {
                let w = choose|w: int| 0 <= w < m.len() && m[w] == v@;
                assert(m[w] != v@);
            }
        }
    }
    let c = copy_bytes(v);
    vec.push(c);
    proof {
        assert(vec@.map_values(|b: Vec<u8>| b@) =~= m.push(v@));
    }
}

/// Everything the collapse pins as a function of the evidence alone.
pub open spec fn spec_collapse_post(evs: Seq<EvModel>, r: FunctionEntry) -> bool {
    &&& (Flags { pure: r.pure, view: r.view, payable: r.payable }) == spec_fold_flags(evs)
    &&& spec_frames_sorted(r.arguments@)
    &&& spec_frames_match(r.arguments@, spec_arg_masks(evs))
    &&& spec_frames_tagged(r.arguments@)
    &&& spec_return_matches(r.return_size, spec_widest_return(evs))
    &&& r.events@.map_values(|b: Vec<u8>| b@) == spec_event_topics(evs)
    &&& r.errors@.map_values(|b: Vec<u8>| b@) == spec_error_sels(evs)
    &&& r.storage@.map_values(|x: u64| x as nat) == spec_storage_order(evs)
}

/// Two strictly slot-sorted frame lists that reflect the same mask map
/// agree pointwise on slots and masks.
proof fn lemma_frames_agree(f1: Seq<Frame>, f2: Seq<Frame>, m: Map<nat, nat>)
    requires
        spec_frames_sorted(f1),
        spec_frames_match(f1, m),
        spec_frames_sorted(f2),
        spec_frames_match(f2, m),
    ensures
        f1.len() == f2.len(),
        forall|i: int|
            0 <= i < f1.len() ==> (#[trigger] f1[i]).slot == f2[i].slot && f1[i].mask_size
                == f2[i].mask_size,
    decreases f1.len(),
{
    if f1.len() == 0 {
        if f2.len() > 0 {
            assert(m.contains_key(f2[0].slot as nat));
            let w = choose|i: int| 0 <= i < f1.len() && (#[trigger] f1[i]).slot as nat == f2[0].slot
                as nat;
            assert(false);
        }
    } else if f2.len() == 0 {
        assert(m.contains_key(f1[0].slot as nat));
        let w = choose|i: int| 0 <= i < f2.len() && (#[trigger] f2[i]).slot as nat == f1[0].slot
            as nat;
        assert(false);
    } else {
        let k0 = f1[0].slot;
        let j0 = f2[0].slot;
        assert(m.contains_key(k0 as nat));
        let a = choose|i: int| 0 <= i < f2.len() && (#[trigger] f2[i]).slot as nat == k0 as nat;
        if a > 0 {
            assert(f2[0].slot < f2[a].slot);
        }
        assert(j0 <= k0);
        assert(m.contains_key(j0 as nat));
        let b = choose|i: int| 0 <= i < f1.len() && (#[trigger] f1[i]).slot as nat == j0 as nat;
        if b > 0 {
            assert(f1[0].slot < f1[b].slot);
        }
        assert(k0 == j0);
        assert(f1[0].mask_size as nat == m[k0 as nat]);
        assert(f2[0].mask_size as nat == m[k0 as nat]);
        let m2 = m.remove(k0 as nat);
        let t1 = f1.drop_first();
        let t2 = f2.drop_first();
        assert forall|x: int, y: int| 0 <= x < y < t1.len() implies (#[trigger] t1[x]).slot < (
        #[trigger] t1[y]).slot by {
            assert(t1[x] == f1[x + 1] && t1[y] == f1[y + 1]);
        }
        assert forall|x: int, y: int| 0 <= x < y < t2.len() implies (#[trigger] t2[x]).slot < (
        #[trigger] t2[y]).slot by {
            assert(t2[x] == f2[x + 1] && t2[y] == f2[y + 1]);
        }
        assert forall|i: int| 0 <= i < t1.len() implies {
            let f = #[trigger] t1[i];
            &&& m2.contains_key(f.slot as nat)
            &&& f.mask_size as nat == m2[f.slot as nat]
        } by {
            assert(t1[i] == f1[i + 1]);
            assert(f1[0].slot < f1[i + 1].slot);
        }
        assert forall|i: int| 0 <= i < t2.len() implies {
            let f = #[trigger] t2[i];
            &&& m2.contains_key(f.slot as nat)
            &&& f.mask_size as nat == m2[f.slot as nat]
        } by {
            assert(t2[i] == f2[i + 1]);
            assert(f2[0].slot < f2[i + 1].slot);
        }
        assert forall|x: nat| #[trigger] m2.contains_key(x) implies exists|i: int|
            0 <= i < t1.len() && (#[trigger] t1[i]).slot as nat == x by {
            assert(m.contains_key(x));
            let w = choose|i: int| 0 <= i < f1.len() && (#[trigger] f1[i]).slot as nat == x;
            assert(w != 0);
            assert(t1[w - 1] == f1[w]);
            assert(t1[w - 1].slot as nat == x);
        }
        assert forall|x: nat| #[trigger] m2.contains_key(x) implies exists|i: int|
            0 <= i < t2.len() && (#[trigger] t2[i]).slot as nat == x by {
            assert(m.contains_key(x));
            let w = choose|i: int| 0 <= i < f2.len() && (#[trigger] f2[i]).slot as nat == x;
            assert(w != 0);
            assert(t2[w - 1] == f2[w]);
            assert(t2[w - 1].slot as nat == x);
        }
        lemma_frames_agree(t1, t2, m2);
        assert forall|i: int| 0 <= i < f1.len() implies (#[trigger] f1[i]).slot == f2[i].slot
            && f1[i].mask_size == f2[i].mask_size by {
            if i > 0 {
                assert(f1[i] == t1[i - 1] && f2[i] == t2[i - 1]);
            }
        }
    }
}

/// Analyzing the same entry twice with the same budget yields the same
/// record: any two entries collapsed from the same evidence agree on the
/// flags, the return shape, the recorded event topics and error
/// selectors, the storage list with its enumeration order, and the
/// argument frames — slots, masks and tags alike.
pub proof fn lemma_analysis_idempotent(evs: Seq<EvModel>, r1: FunctionEntry, r2: FunctionEntry)
    requires
        spec_collapse_post(evs, r1),
        spec_collapse_post(evs, r2),
    ensures
        r1.pure == r2.pure,
        r1.view == r2.view,
        r1.payable == r2.payable,
        r1.return_size == r2.return_size,
        r1.events@.map_values(|b: Vec<u8>| b@) == r2.events@.map_values(|b: Vec<u8>| b@),
        r1.errors@.map_values(|b: Vec<u8>| b@) == r2.errors@.map_values(|b: Vec<u8>| b@),
        r1.storage@ == r2.storage@,
        r1.arguments@.len() == r2.arguments@.len(),
        forall|i: int|
            0 <= i < r1.arguments@.len() ==> (#[trigger] r1.arguments@[i]).slot
                == r2.arguments@[i].slot && r1.arguments@[i].mask_size
                == r2.arguments@[i].mask_size && r1.arguments@[i].heuristics@
                == r2.arguments@[i].heuristics@,
{
    lemma_frames_agree(r1.arguments@, r2.arguments@, spec_arg_masks(evs));
    let p1 = r1.storage@.map_values(|x: u64| x as nat);
    let p2 = r2.storage@.map_values(|x: u64| x as nat);
    assert(p1 == p2);
    assert(p1.len() == p2.len());
    assert(r1.storage@.len() == r2.storage@.len());
    assert forall|i: int| 0 <= i < r1.storage@.len() implies r1.storage@[i] == r2.storage@[i] by {
        assert(p1[i] == r1.storage@[i] as nat);
        assert(p2[i] == r2.storage@[i] as nat);
        assert(r1.storage@[i] as nat == r2.storage@[i] as nat);
    }
    assert(r1.storage@ =~= r2.storage@);
    assert forall|i: int| 0 <= i < r1.arguments@.len() implies (
    #[trigger] r1.arguments@[i]).heuristics@ == r2.arguments@[i].heuristics@ by {
        assert(r1.arguments@[i].heuristics@ == spec_mask_tags(r1.arguments@[i].mask_size));
        assert(r2.arguments@[i].heuristics@ == spec_mask_tags(r2.arguments@[i].mask_size));
    }
}

} // verus!
