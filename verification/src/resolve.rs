use vstd::prelude::*;

use crate::analyze::FunctionEntry;
use vstd::multiset::Multiset;

verus! {

// Component D and G: the signature cache, candidate ranking, and the
// matching of resolved signatures against an analyzed function.  The
// network lookup itself is I/O and lives outside the library; everything
// the lookup's answers go through — memoization, ranking, default
// selection, parameter matching — is verified here.

/// A resolved signature: its text, e.g. `transfer(address,uint256)`,
/// kept as ASCII bytes.
pub struct ResolvedSig {
    pub signature: Vec<u8>,
}

impl View for ResolvedSig {
    type V = Seq<u8>;

    open spec fn view(&self) -> Seq<u8> {
        self.signature@
    }
}

impl ResolvedSig {
    pub fn clone_sig(&self) -> (r: ResolvedSig)
        ensures
            r@ == self@,
    {
        let mut b: Vec<u8> = Vec::new();
        let mut i: usize = 0;
        while i < self.signature.len()
            invariant
                i <= self.signature@.len(),
                b@ =~= self.signature@.subrange(0, i as int),
            decreases self.signature@.len() - i,
        {
            b.push(self.signature[i]);
            i = i + 1;
        }
        proof {
            assert(b@ =~= self.signature@);
        }
        ResolvedSig { signature: b }
    }
}

pub fn clone_sigs(v: &Vec<ResolvedSig>) -> (r: Vec<ResolvedSig>)
    ensures
        r@.map_values(|s: ResolvedSig| s@) == v@.map_values(|s: ResolvedSig| s@),
{
    let mut out: Vec<ResolvedSig> = Vec::new();
    let mut i: usize = 0;
    while i < v.len()
        invariant
            i <= v@.len(),
            out@.len() == i,
            forall|j: int| 0 <= j < i ==> (#[trigger] out@[j])@ == v@[j]@,
        decreases v@.len() - i,
    {
        out.push(v[i].clone_sig());
        i = i + 1;
    }
    proof {
        assert(out@.map_values(|s: ResolvedSig| s@) =~= v@.map_values(|s: ResolvedSig| s@));
    }
    out
}

/// One memoized lookup result.
pub struct CacheEntry {
    /// The selector, read as a big-endian 32-bit key.
    pub sel: u32,
    /// The candidates the database returned, already ranked.
    pub sigs: Vec<ResolvedSig>,
}

/// The process-wide signature cache: write-once per key.  A second query
/// for a cached selector is answered from here, with no further lookup.
pub struct SignatureCache {
    pub entries: Vec<CacheEntry>,
}

/// The mapping a cache stands for.
pub open spec fn spec_cache_map(entries: Seq<CacheEntry>) -> Map<u32, Seq<Seq<u8>>>
    decreases entries.len(),
{
    if entries.len() == 0 {
        Map::empty()
    } else {
        spec_cache_map(entries.drop_last()).insert(
            entries.last().sel,
            entries.last().sigs@.map_values(|s: ResolvedSig| s@),
        )
    }
}

/// A key is in the mapping exactly when some entry carries it.
pub proof fn lemma_cache_map_domain(entries: Seq<CacheEntry>, sel: u32)
    ensures
        spec_cache_map(entries).contains_key(sel) <==> exists|i: int|
            0 <= i < entries.len() && (#[trigger] entries[i]).sel == sel,
    decreases entries.len(),
{
    if entries.len() > 0 {
        lemma_cache_map_domain(entries.drop_last(), sel);
        if spec_cache_map(entries).contains_key(sel) {
            if entries.last().sel == sel {
                assert(entries[entries.len() - 1].sel == sel);
            } else {
                let i = choose|i: int|
                    0 <= i < entries.drop_last().len() && (#[trigger] entries.drop_last()[i]).sel
                        == sel;
                assert(entries[i].sel == sel);
            }
        }
        if exists|i: int| 0 <= i < entries.len() && (#[trigger] entries[i]).sel == sel {
            let i = choose|i: int| 0 <= i < entries.len() && (#[trigger] entries[i]).sel == sel;
            if i < entries.len() - 1 {
                assert(entries.drop_last()[i].sel == sel);
            }
        }
    }
}

/// With pairwise-distinct keys, the entry for a key answers the mapping.
pub proof fn lemma_cache_map_at(entries: Seq<CacheEntry>, i: int)
    requires
        0 <= i < entries.len(),
        forall|a: int, b: int|
            0 <= a < b < entries.len() ==> (#[trigger] entries[a]).sel != (
            #[trigger] entries[b]).sel,
    ensures
        spec_cache_map(entries).contains_key(entries[i].sel),
        spec_cache_map(entries)[entries[i].sel] == entries[i].sigs@.map_values(
            |s: ResolvedSig| s@,
        ),
    decreases entries.len(),
{
    if i == entries.len() - 1 {
    } else {
        lemma_cache_map_at(entries.drop_last(), i);
        assert(entries.drop_last()[i] == entries[i]);
        assert(entries.last().sel != entries[i].sel);
    }
}

impl SignatureCache {
    /// Keys are never written twice.
    pub open spec fn wf(&self) -> bool {
        forall|a: int, b: int|
            0 <= a < b < self.entries@.len() ==> (#[trigger] self.entries@[a]).sel != (
            #[trigger] self.entries@[b]).sel
    }

    /// The memoization table this cache holds.
    pub open spec fn map(&self) -> Map<u32, Seq<Seq<u8>>> {
        spec_cache_map(self.entries@)
    }

    pub fn new() -> (r: SignatureCache)
        ensures
            r.wf(),
            r.map() == Map::<u32, Seq<Seq<u8>>>::empty(),
    {
        SignatureCache { entries: Vec::new() }
    }

    #[verifier::loop_isolation(false)]
    pub fn contains(&self, sel: u32) -> (r: bool)
        ensures
            r == self.map().contains_key(sel),
    {
        proof {
            lemma_cache_map_domain(self.entries@, sel);
        }
        let mut i: usize = 0;
        while i < self.entries.len()
            invariant
                i <= self.entries@.len(),
                forall|j: int| 0 <= j < i ==> (#[trigger] self.entries@[j]).sel != sel,
            decreases self.entries@.len() - i,
        {
            if self.entries[i].sel == sel {
                proof {
                    assert(self.entries@[i as int].sel == sel);
                }
                return true;
            }
            i = i + 1;
        }
        false
    }

    /// Answer a query from the cache.  The caller goes to the network
    /// only on `None`; on `Some` the stored candidates come back as they
    /// were written, so a repeated query inside one run never looks
    /// anything up again.
    #[verifier::loop_isolation(false)]
    pub fn get(&self, sel: u32) -> (r: Option<Vec<ResolvedSig>>)
        requires
            self.wf(),
        ensures
            r is Some <==> self.map().contains_key(sel),
            r is Some ==> r.unwrap()@.map_values(|s: ResolvedSig| s@) == self.map()[sel],
    {
        proof {
            lemma_cache_map_domain(self.entries@, sel);
        }
        let mut i: usize = 0;
        while i < self.entries.len()
            invariant
                i <= self.entries@.len(),
                forall|j: int| 0 <= j < i ==> (#[trigger] self.entries@[j]).sel != sel,
            decreases self.entries@.len() - i,
        {
            if self.entries[i].sel == sel {
                proof {
                    assert(self.entries@[i as int].sel == sel);
                    lemma_cache_map_at(self.entries@, i as int);
                }
                return Some(clone_sigs(&self.entries[i].sigs));
            }
            i = i + 1;
        }
        None
    }

    /// Memoize a lookup's answer.  Write-once: the key must be fresh.
    pub fn insert(&mut self, sel: u32, sigs: Vec<ResolvedSig>)
        requires
            old(self).wf(),
            !old(self).map().contains_key(sel),
        ensures
            final(self).wf(),
            final(self).map() == old(self).map().insert(
                sel,
                sigs@.map_values(|s: ResolvedSig| s@),
            ),
    {
        proof {
            lemma_cache_map_domain(self.entries@, sel);
        }
        let ghost sigs_m = sigs@.map_values(|s: ResolvedSig| s@);
        self.entries.push(CacheEntry { sel, sigs });
        proof {
            assert(self.entries@.drop_last() =~= old(self).entries@);
            assert(self.entries@.last().sel == sel);
            assert(self.entries@.last().sigs@.map_values(|s: ResolvedSig| s@) == sigs_m);
            assert forall|a: int, b: int|
                0 <= a < b < self.entries@.len() implies (#[trigger] self.entries@[a]).sel != (
            #[trigger] self.entries@[b]).sel by {
                if b == self.entries@.len() - 1 {
                    assert(self.entries@[a] == old(self).entries@[a]);
                }
            }
        }
    }
}

/// Candidate order for ranking: shorter signatures first, and among equal
/// lengths, lexicographically ascending, so that the last ranked
/// candidate is the lexicographically greatest of the longest.
pub open spec fn spec_lex_le(a: Seq<u8>, b: Seq<u8>) -> bool
    decreases a.len(),
{
    if a.len() == 0 {
        true
    } else if b.len() == 0 {
        false
    } else if a.first() < b.first() {
        true
    } else if a.first() > b.first() {
        false
    } else {
        spec_lex_le(a.drop_first(), b.drop_first())
    }
}

pub open spec fn spec_sig_le(a: Seq<u8>, b: Seq<u8>) -> bool {
    a.len() < b.len() || (a.len() == b.len() && spec_lex_le(a, b))
}

pub proof fn lemma_lex_le_total(a: Seq<u8>, b: Seq<u8>)
    ensures
        spec_lex_le(a, b) || spec_lex_le(b, a),
    decreases a.len(),
{
    if a.len() > 0 && b.len() > 0 && a.first() == b.first() {
        lemma_lex_le_total(a.drop_first(), b.drop_first());
    }
}

pub proof fn lemma_lex_le_trans(a: Seq<u8>, b: Seq<u8>, c: Seq<u8>)
    requires
        spec_lex_le(a, b),
        spec_lex_le(b, c),
    ensures
        spec_lex_le(a, c),
    decreases a.len(),
{
    if a.len() > 0 && b.len() > 0 && c.len() > 0 && a.first() == b.first() && b.first()
        == c.first() {
        lemma_lex_le_trans(a.drop_first(), b.drop_first(), c.drop_first());
    }
}

pub proof fn lemma_lex_le_refl(a: Seq<u8>)
    ensures
        spec_lex_le(a, a),
    decreases a.len(),
{
    if a.len() > 0 {
        lemma_lex_le_refl(a.drop_first());
    }
}

pub proof fn lemma_sig_le_total(a: Seq<u8>, b: Seq<u8>)
    ensures
        spec_sig_le(a, b) || spec_sig_le(b, a),
{
    lemma_lex_le_total(a, b);
}

pub proof fn lemma_sig_le_trans(a: Seq<u8>, b: Seq<u8>, c: Seq<u8>)
    requires
        spec_sig_le(a, b),
        spec_sig_le(b, c),
    ensures
        spec_sig_le(a, c),
{
    if a.len() == b.len() && b.len() == c.len() {
        lemma_lex_le_trans(a, b, c);
    }
}

/// `a` comes no later than `b` in the ranking.
pub fn sig_le(a: &Vec<u8>, b: &Vec<u8>) -> (r: bool)
    ensures
        r == spec_sig_le(a@, b@),
{
    if a.len() < b.len() {
        return true;
    }
    if a.len() > b.len() {
        return false;
    }
    let mut i: usize = 0;
    proof {
        assert(a@.skip(0) =~= a@);
        assert(b@.skip(0) =~= b@);
    }
    while i < a.len()
        invariant
            i <= a@.len(),
            a@.len() == b@.len(),
            forall|j: int| 0 <= j < i ==> a@[j] == b@[j],
            spec_lex_le(a@, b@) == spec_lex_le(a@.skip(i as int), b@.skip(i as int)),
        decreases a@.len() - i,
    {
        proof {
            assert(a@.skip(i as int).first() == a@[i as int]);
            assert(b@.skip(i as int).first() == b@[i as int]);
            assert(a@.skip(i as int).drop_first() =~= a@.skip(i as int + 1));
            assert(b@.skip(i as int).drop_first() =~= b@.skip(i as int + 1));
        }
        if a[i] < b[i] {
            return true;
        }
        if a[i] > b[i] {
            return false;
        }
        i = i + 1;
    }
    proof {
        assert(a@.skip(i as int).len() == 0);
    }
    true
}

/// Rank candidates by (signature shortness, lexicographic ascending).
/// The result is a sorted permutation of the input.
pub fn rank_candidates(v: Vec<ResolvedSig>) -> (r: Vec<ResolvedSig>)
    ensures
        forall|a: int, b: int|
            0 <= a < b < r@.len() ==> spec_sig_le((#[trigger] r@[a])@, (#[trigger] r@[b])@),
        r@.map_values(|s: ResolvedSig| s@).to_multiset() == v@.map_values(
            |s: ResolvedSig| s@,
        ).to_multiset(),
{
    broadcast use vstd::seq_lib::group_to_multiset_ensures;

    let ghost vm = v@.map_values(|s: ResolvedSig| s@);
    let mut input = v;
    let mut out: Vec<ResolvedSig> = Vec::new();
    proof {
        assert(vm.skip(0) =~= vm);
        assert(out@.map_values(|s: ResolvedSig| s@) =~= Seq::<Seq<u8>>::empty());
        lemma_multiset_prefix_split(vm, 0);
    }
    let mut t: usize = 0;
    while t < input.len()
        invariant
            t <= input@.len(),
            vm == input@.map_values(|s: ResolvedSig| s@),
            forall|a: int, b: int|
                0 <= a < b < out@.len() ==> spec_sig_le((#[trigger] out@[a])@, (
                #[trigger] out@[b])@),
            out@.map_values(|s: ResolvedSig| s@).to_multiset() == vm.take(t as int).to_multiset(),
        decreases input@.len() - t,
    {
        let x = input[t].clone_sig();
        let ghost pre = out@.map_values(|s: ResolvedSig| s@);
        let mut p: usize = 0;
        while p < out.len() && !sig_le_at(&x, &out, p)
            invariant
                p <= out@.len(),
                forall|j: int| 0 <= j < p ==> spec_sig_le((#[trigger] out@[j])@, x@),
                out@.map_values(|s: ResolvedSig| s@) == pre,
                forall|a: int, b: int|
                    0 <= a < b < out@.len() ==> spec_sig_le((#[trigger] out@[a])@, (
                    #[trigger] out@[b])@),
            decreases out@.len() - p,
        {
            proof {
                lemma_sig_le_total(x@, out@[p as int]@);
            }
            p = p + 1;
        }
        let ghost out_before = out@;
        proof {
            if (p as int) < out_before.len() {
                assert(spec_sig_le(x@, out_before[p as int]@));
            }
        }
        out.insert(p, x);
        proof {
            assert(out@[p as int] == x);
            assert(vm[t as int] == input@[t as int]@);
            assert(out@.remove(p as int) =~= out_before);
            lemma_insert_multiset(out@, out_before, p as int);
            vstd::seq_lib::to_multiset_build(vm.take(t as int), vm[t as int]);
            assert(out_before.map_values(|s: ResolvedSig| s@) == pre);
            assert forall|a: int, b: int|
                0 <= a < b < out@.len() implies spec_sig_le((#[trigger] out@[a])@, (
            #[trigger] out@[b])@) by {
                if b < p as int {
                    assert(out@[a] == out_before[a] && out@[b] == out_before[b]);
                } else if b == p as int {
                    assert(out@[a] == out_before[a]);
                } else if a == p as int {
                    assert(out@[b] == out_before[b - 1]);
                    if (p as int) < b - 1 {
                        lemma_sig_le_trans(x@, out_before[p as int]@, out_before[b - 1]@);
                    }
                } else if a < p as int {
                    assert(out@[a] == out_before[a] && out@[b] == out_before[b - 1]);
                } else {
                    assert(out@[a] == out_before[a - 1] && out@[b] == out_before[b - 1]);
                }
            }
            assert(vm.take(t as int + 1).drop_last() =~= vm.take(t as int));
            assert(vm.take(t as int + 1) =~= vm.take(t as int).push(vm[t as int]));
        }
        t = t + 1;
    }
    proof {
        assert(vm.take(vm.len() as int) =~= vm);
    }
    out
}

/// Inserting an element adds exactly it to the sequence's multiset.
proof fn lemma_insert_multiset(s2: Seq<ResolvedSig>, s1: Seq<ResolvedSig>, p: int)
    requires
        0 <= p < s2.len(),
        s2.remove(p) == s1,
    ensures
        s2.map_values(|s: ResolvedSig| s@).to_multiset() == s1.map_values(
            |s: ResolvedSig| s@,
        ).to_multiset().insert(s2[p]@),
{
    let m2 = s2.map_values(|s: ResolvedSig| s@);
    let m1 = s1.map_values(|s: ResolvedSig| s@);
    assert(m2.remove(p) =~= m1);
    assert(m1.insert(p, m2[p]) =~= m2);
    vstd::seq_lib::to_multiset_insert(m1, p, m2[p]);
}

proof fn lemma_multiset_prefix_split(s: Seq<Seq<u8>>, t: int)
    requires
        0 <= t <= s.len(),
    ensures
        s.take(0).to_multiset() == Multiset::<Seq<u8>>::empty(),
{
    broadcast use vstd::seq_lib::group_to_multiset_ensures;

    assert(s.take(0) =~= Seq::<Seq<u8>>::empty());
    assert(Seq::<Seq<u8>>::empty().to_multiset().len() == 0);
    assert(s.take(0).to_multiset() =~= Multiset::<Seq<u8>>::empty());
}

/// `x <= out[p]` in ranking order.
fn sig_le_at(x: &ResolvedSig, out: &Vec<ResolvedSig>, p: usize) -> (r: bool)
    requires
        p < out@.len(),
    ensures
        r == spec_sig_le(x@, out@[p as int]@),
{
    sig_le(&x.signature, &out[p].signature)
}

/// Under `--default` the last ranked candidate is auto-chosen: with the
/// ranking above, the lexicographically greatest of the longest
/// signatures.
pub fn select_default(v: &Vec<ResolvedSig>) -> (r: Option<ResolvedSig>)
    ensures
        r is Some <==> v@.len() > 0,
        r is Some ==> r.unwrap()@ == v@[v@.len() - 1]@,
{
    if v.len() == 0 {
        None
    } else {
        Some(v[v.len() - 1].clone_sig())
    }
}

/// The law behind the default selection: in a ranked candidate list the
/// last entry is greatest in the ranking order, so auto-choosing it
/// picks the lexicographically last of the longest signatures.
pub proof fn lemma_default_choice_greatest(r: Seq<ResolvedSig>)
    requires
        r.len() > 0,
        forall|a: int, b: int|
            0 <= a < b < r.len() ==> spec_sig_le((#[trigger] r[a])@, (#[trigger] r[b])@),
    ensures
        forall|i: int| 0 <= i < r.len() ==> spec_sig_le((#[trigger] r[i])@, r[r.len() - 1]@),
{
    assert forall|i: int| 0 <= i < r.len() implies spec_sig_le((#[trigger] r[i])@, r[r.len()
        - 1]@) by {
        if i == r.len() - 1 {
            lemma_lex_le_refl(r[i]@);
        }
    }
}

} // verus!
