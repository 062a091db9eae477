use vstd::prelude::*;

verus! {

// The EVM's 256-bit words and 160-bit addresses, modeled as their
// big-endian bytes.  The fuzz-input record stores transaction values and
// block fields in this form; the foreign-executor bridge reverses them to
// little-endian at the boundary.

/// Value of a big-endian byte string.
pub open spec fn spec_be_val(s: Seq<u8>) -> nat
    decreases s.len(),
{
    if s.len() == 0 {
        0
    } else {
        spec_be_val(s.drop_last()) * 256 + s.last() as nat
    }
}

/// `s` reversed.
pub open spec fn spec_reversed(s: Seq<u8>) -> Seq<u8> {
    Seq::new(s.len(), |i: int| s[s.len() - 1 - i])
}

/// A 256-bit EVM word, kept as its 32 big-endian bytes.
pub struct Word {
    pub bytes: Vec<u8>,
}

impl Word {
    /// The word is exactly 32 bytes.
    pub open spec fn wf(&self) -> bool {
        self.bytes@.len() == 32
    }

    /// The numeric value of the word.
    pub open spec fn val(&self) -> nat {
        spec_be_val(self.bytes@)
    }

    pub fn zero() -> (r: Word)
        ensures
            r.wf(),
            r.bytes@ == Seq::new(32, |i: int| 0u8),
    {
        let mut b: Vec<u8> = Vec::new();
        let mut i: usize = 0;
        while i < 32
            invariant
                i <= 32,
                b@ =~= Seq::new(i as nat, |j: int| 0u8),
            decreases 32 - i,
        {
            b.push(0u8);
            i = i + 1;
        }
        proof {
            assert(b@ =~= Seq::new(32, |i: int| 0u8));
        }
        Word { bytes: b }
    }

    /// Build a word from at most 32 big-endian bytes, left-padded with
    /// zeroes; `None` when more than 32 bytes are handed in.
    pub fn try_from_be_slice(s: &[u8]) -> (r: Option<Word>)
        ensures
            r is Some <==> s@.len() <= 32,
            r is Some ==> {
                &&& r.unwrap().wf()
                &&& r.unwrap().bytes@ == Seq::new((32 - s@.len()) as nat, |i: int| 0u8) + s@
            },
    {
        if s.len() > 32 {
            return None;
        }
        let pad = 32 - s.len();
        let mut b: Vec<u8> = Vec::new();
        let mut i: usize = 0;
        while i < pad
            invariant
                i <= pad,
                b@ =~= Seq::new(i as nat, |j: int| 0u8),
            decreases pad - i,
        {
            b.push(0u8);
            i = i + 1;
        }
        let mut j: usize = 0;
        while j < s.len()
            invariant
                j <= s@.len(),
                pad == 32 - s@.len(),
                b@ =~= Seq::new(pad as nat, |k: int| 0u8) + s@.subrange(0, j as int),
            decreases s.len() - j,
        {
            b.push(s[j]);
            j = j + 1;
        }
        proof {
            assert(s@.subrange(0, s@.len() as int) =~= s@);
            assert(b@ =~= Seq::new((32 - s@.len()) as nat, |i: int| 0u8) + s@);
        }
        Some(Word { bytes: b })
    }

    /// The 32 big-endian bytes of the word.
    pub fn to_be_bytes(&self) -> (r: Vec<u8>)
        requires
            self.wf(),
        ensures
            r@ == self.bytes@,
    {
        let mut b: Vec<u8> = Vec::new();
        let mut i: usize = 0;
        while i < self.bytes.len()
            invariant
                i <= self.bytes@.len(),
                b@ =~= self.bytes@.subrange(0, i as int),
            decreases self.bytes@.len() - i,
        {
            b.push(self.bytes[i]);
            i = i + 1;
        }
        proof {
            assert(self.bytes@.subrange(0, self.bytes@.len() as int) =~= self.bytes@);
        }
        b
    }

    /// The 32 bytes of the word in little-endian order, as the foreign
    /// executor expects them.
    pub fn to_le_bytes(&self) -> (r: Vec<u8>)
        requires
            self.wf(),
        ensures
            r@ == spec_reversed(self.bytes@),
    {
        reverse_bytes(&self.bytes)
    }

    pub fn eq_word(&self, other: &Word) -> (r: bool)
        ensures
            r == (self.bytes@ =~= other.bytes@),
    {
        bytes_eq(&self.bytes, &other.bytes)
    }

    pub fn is_zero(&self) -> (r: bool)
        ensures
            r == (self.bytes@ =~= Seq::new(self.bytes@.len(), |i: int| 0u8)),
    {
        let mut i: usize = 0;
        while i < self.bytes.len()
            invariant
                i <= self.bytes@.len(),
                forall|j: int| 0 <= j < i ==> self.bytes@[j] == 0u8,
            decreases self.bytes@.len() - i,
        {
            if self.bytes[i] != 0 {
                return false;
            }
            i = i + 1;
        }
        true
    }
}

/// A 160-bit address, kept as its 20 bytes.
pub struct Address {
    pub bytes: Vec<u8>,
}

impl Address {
    pub open spec fn wf(&self) -> bool {
        self.bytes@.len() == 20
    }

    pub fn from_bytes(b: Vec<u8>) -> (r: Option<Address>)
        ensures
            r is Some <==> b@.len() == 20,
            r is Some ==> r.unwrap().bytes@ == b@,
    {
        if b.len() == 20 {
            Some(Address { bytes: b })
        } else {
            None
        }
    }

    pub fn eq_addr(&self, other: &Address) -> (r: bool)
        ensures
            r == (self.bytes@ =~= other.bytes@),
    {
        bytes_eq(&self.bytes, &other.bytes)
    }

    pub fn clone_addr(&self) -> (r: Address)
        ensures
            r.bytes@ == self.bytes@,
    {
        let mut b: Vec<u8> = Vec::new();
        let mut i: usize = 0;
        while i < self.bytes.len()
            invariant
                i <= self.bytes@.len(),
                b@ =~= self.bytes@.subrange(0, i as int),
            decreases self.bytes@.len() - i,
        {
            b.push(self.bytes[i]);
            i = i + 1;
        }
        proof {
            assert(self.bytes@.subrange(0, self.bytes@.len() as int) =~= self.bytes@);
        }
        Address { bytes: b }
    }

    /// The address bytes reversed, as the foreign executor expects them.
    pub fn to_le_bytes(&self) -> (r: Vec<u8>)
        ensures
            r@ == spec_reversed(self.bytes@),
    {
        reverse_bytes(&self.bytes)
    }
}

/// Byte-for-byte equality of two byte strings.
pub fn bytes_eq(a: &Vec<u8>, b: &Vec<u8>) -> (r: bool)
    ensures
        r == (a@ =~= b@),
{
    if a.len() != b.len() {
        return false;
    }
    let mut i: usize = 0;
    while i < a.len()
        invariant
            i <= a@.len(),
            a@.len() == b@.len(),
            forall|j: int| 0 <= j < i ==> a@[j] == b@[j],
        decreases a@.len() - i,
    {
        if a[i] != b[i] {
            return false;
        }
        i = i + 1;
    }
    true
}

/// `v` reversed.
pub fn reverse_bytes(v: &Vec<u8>) -> (r: Vec<u8>)
    ensures
        r@ == spec_reversed(v@),
{
    let mut out: Vec<u8> = Vec::new();
    let mut i: usize = v.len();
    while i > 0
        invariant
            i <= v@.len(),
            out@ =~= Seq::new((v@.len() - i) as nat, |j: int| v@[v@.len() - 1 - j]),
        decreases i,
    {
        i = i - 1;
        out.push(v[i]);
        proof {
            assert(out@ =~= Seq::new((v@.len() - i) as nat, |j: int| v@[v@.len() - 1 - j]));
        }
    }
    proof {
        assert(out@ =~= spec_reversed(v@));
    }
    out
}

/// Reversing twice is the identity: what the bridge sends little-endian,
/// read back the same way, is the word it started from.
pub proof fn lemma_reverse_involution(s: Seq<u8>)
    ensures
        spec_reversed(spec_reversed(s)) == s,
{
    assert(spec_reversed(spec_reversed(s)) =~= s);
}

/// 256 raised to `n`.
pub open spec fn spec_pow256(n: nat) -> nat
    decreases n,
{
    if n == 0 {
        1
    } else {
        256 * spec_pow256((n - 1) as nat)
    }
}

/// The value of a big-endian byte string is bounded by 256^len.
pub proof fn lemma_be_val_bound(s: Seq<u8>)
    ensures
        spec_be_val(s) < spec_pow256(s.len()),
    decreases s.len(),
{
    if s.len() > 0 {
        lemma_be_val_bound(s.drop_last());
        assert(spec_be_val(s.drop_last()) <= spec_pow256((s.len() - 1) as nat) - 1);
    }
}

proof fn lemma_pow256_monotone(a: nat, b: nat)
    requires
        a <= b,
    ensures
        spec_pow256(a) <= spec_pow256(b),
    decreases b,
{
    if a < b {
        lemma_pow256_monotone(a, (b - 1) as nat);
    }
}

/// Big-endian value of at most 8 bytes, as a machine integer.
pub fn be_bytes_value_u64(s: &[u8]) -> (r: u64)
    requires
        s@.len() <= 8,
    ensures
        r == spec_be_val(s@),
{
    proof {
        lemma_be_val_bound(s@);
        lemma_pow256_monotone(s@.len(), 8);
        assert(spec_pow256(8) == 0x1_0000_0000_0000_0000) by {
            reveal_with_fuel(spec_pow256, 9);
        }
    }
    let mut acc: u64 = 0;
    let mut i: usize = 0;
    while i < s.len()
        invariant
            i <= s@.len(),
            s@.len() <= 8,
            acc == spec_be_val(s@.subrange(0, i as int)),
            spec_be_val(s@) < 0x1_0000_0000_0000_0000,
        decreases s.len() - i,
    {
        proof {
            lemma_be_val_prefix_bound(s@, i as int);
            assert(s@.subrange(0, i as int + 1).drop_last() =~= s@.subrange(0, i as int));
            assert(s@.subrange(0, i as int + 1).last() == s@[i as int]);
        }
        acc = acc * 256 + (s[i] as u64);
        i = i + 1;
    }
    proof {
        assert(s@.subrange(0, s@.len() as int) =~= s@);
    }
    acc
}

/// The value of a proper prefix extended by one byte stays within the
/// value of any extension of it.
proof fn lemma_be_val_prefix_bound(s: Seq<u8>, i: int)
    requires
        0 <= i < s.len(),
    ensures
        spec_be_val(s.subrange(0, i)) * 256 + s[i] <= spec_be_val(s),
    decreases s.len() - i,
{
    if i == s.len() - 1 {
        assert(s.drop_last() =~= s.subrange(0, i));
        assert(s.last() == s[i]);
    } else {
        lemma_be_val_prefix_bound(s.drop_last(), i);
        assert(s.drop_last().subrange(0, i) =~= s.subrange(0, i));
        assert(s.drop_last()[i] == s[i]);
        assert(spec_be_val(s) == spec_be_val(s.drop_last()) * 256 + s.last());
    }
}

} // verus!
