use vstd::prelude::*;

verus! {

// Hex text handling for bytecode targets.  All specifications speak about
// the ASCII bytes of the text, so that the pipeline contracts can be stated
// over `Seq<u8>` end to end.

/// ASCII byte for the digit `0`..`9`, `a`..`f` or `A`..`F`.
pub open spec fn spec_is_hex_digit(b: u8) -> bool {
    (0x30 <= b && b <= 0x39) || (0x61 <= b && b <= 0x66) || (0x41 <= b && b <= 0x46)
}

/// Numeric value of a hex digit byte.
pub open spec fn spec_hex_val(b: u8) -> nat {
    if 0x30 <= b && b <= 0x39 {
        (b - 0x30) as nat
    } else if 0x61 <= b && b <= 0x66 {
        (b - 0x61 + 10) as nat
    } else if 0x41 <= b && b <= 0x46 {
        (b - 0x41 + 10) as nat
    } else {
        0
    }
}

/// Lowercase hex digit byte for a value below 16.
pub open spec fn spec_hex_digit(v: nat) -> u8 {
    if v < 10 {
        (0x30 + v) as u8
    } else {
        (0x61 + (v - 10)) as u8
    }
}

/// Every byte of `s` is a hex digit.
pub open spec fn spec_is_hex_text(s: Seq<u8>) -> bool {
    forall|i: int| 0 <= i < s.len() ==> spec_is_hex_digit(#[trigger] s[i])
}

/// The bytes denoted by an even-length hex text, two digits per byte,
/// high nibble first.
pub open spec fn spec_decode_hex(s: Seq<u8>) -> Seq<u8>
    decreases s.len(),
{
    if s.len() < 2 {
        Seq::empty()
    } else {
        seq![(spec_hex_val(s[0]) * 16 + spec_hex_val(s[1])) as u8] + spec_decode_hex(s.skip(2))
    }
}

/// Lowercase hex text for a byte string, two digits per byte.
pub open spec fn spec_encode_hex(b: Seq<u8>) -> Seq<u8>
    decreases b.len(),
{
    if b.len() == 0 {
        Seq::empty()
    } else {
        seq![spec_hex_digit((b[0] >> 4) as nat), spec_hex_digit((b[0] & 0x0f) as nat)]
            + spec_encode_hex(b.drop_first())
    }
}

pub fn is_hex_digit(b: u8) -> (r: bool)
    ensures
        r == spec_is_hex_digit(b),
{
    (0x30 <= b && b <= 0x39) || (0x61 <= b && b <= 0x66) || (0x41 <= b && b <= 0x46)
}

pub fn hex_val(b: u8) -> (v: u8)
    requires
        spec_is_hex_digit(b),
    ensures
        v == spec_hex_val(b),
        v < 16,
{
    if 0x30 <= b && b <= 0x39 {
        b - 0x30
    } else if 0x61 <= b && b <= 0x66 {
        b - 0x61 + 10
    } else {
        b - 0x41 + 10
    }
}

pub fn hex_digit(v: u8) -> (b: u8)
    requires
        v < 16,
    ensures
        b == spec_hex_digit(v as nat),
{
    if v < 10 {
        0x30 + v
    } else {
        0x61 + (v - 10)
    }
}

/// Decode an even-length hex text into its bytes.  Returns `None` exactly
/// when the text has odd length or holds a byte that is no hex digit.
pub fn decode_hex(s: &[u8]) -> (r: Option<Vec<u8>>)
    ensures
        r is Some <==> (s@.len() % 2 == 0 && spec_is_hex_text(s@)),
        r is Some ==> r.unwrap()@ == spec_decode_hex(s@),
{
    if s.len() % 2 != 0 {
        return None;
    }
    let mut out: Vec<u8> = Vec::new();
    let mut i: usize = 0;
    proof {
        assert(s@.skip(0) =~= s@);
    }
    while i < s.len()
        invariant
            i % 2 == 0,
            i <= s.len(),
            s@.len() % 2 == 0,
            forall|j: int| 0 <= j < i ==> spec_is_hex_digit(#[trigger] s@[j]),
            spec_decode_hex(s@) == out@ + spec_decode_hex(s@.skip(i as int)),
        decreases s.len() - i,
    {
        let hi = s[i];
        let lo = s[i + 1];
        if !is_hex_digit(hi) || !is_hex_digit(lo) {
            return None;
        }
        proof {
            assert(s@.skip(i as int).len() >= 2);
            assert(s@.skip(i as int)[0] == s@[i as int]);
            assert(s@.skip(i as int)[1] == s@[i as int + 1]);
            assert(s@.skip(i as int).skip(2) =~= s@.skip(i as int + 2));
            assert(spec_decode_hex(s@.skip(i as int)) == seq![
                (spec_hex_val(s@[i as int]) * 16 + spec_hex_val(s@[i as int + 1])) as u8,
            ] + spec_decode_hex(s@.skip(i as int + 2)));
        }
        let v: u8 = hex_val(hi) * 16 + hex_val(lo);
        out.push(v);
        i = i + 2;
        proof {
            assert(spec_decode_hex(s@) == out@ + spec_decode_hex(s@.skip(i as int)));
        }
    }
    proof {
        assert(s@.skip(i as int) =~= Seq::<u8>::empty());
        assert(spec_decode_hex(s@.skip(i as int)) =~= Seq::<u8>::empty());
        assert(out@ =~= spec_decode_hex(s@));
    }
    Some(out)
}

/// Encode bytes as lowercase hex text.
pub fn encode_hex(b: &[u8]) -> (r: Vec<u8>)
    ensures
        r@ == spec_encode_hex(b@),
        r@.len() == 2 * b@.len(),
{
    proof {
        lemma_encode_hex_len(b@);
    }
    let mut out: Vec<u8> = Vec::new();
    let mut i: usize = 0;
    proof {
        assert(b@.skip(0) =~= b@);
    }
    while i < b.len()
        invariant
            i <= b.len(),
            out@.len() == 2 * i,
            spec_encode_hex(b@) == out@ + spec_encode_hex(b@.skip(i as int)),
        decreases b.len() - i,
    {
        let x = b[i];
        proof {
            assert(b@.skip(i as int).len() >= 1);
            assert(b@.skip(i as int)[0] == b@[i as int]);
            assert(b@.skip(i as int).drop_first() =~= b@.skip(i as int + 1));
            lemma_encode_hex_len(b@.skip(i as int));
            assert((x >> 4) < 16 && (x & 0x0f) < 16) by (bit_vector);
        }
        out.push(hex_digit(x >> 4));
        out.push(hex_digit(x & 0x0f));
        i = i + 1;
        proof {
            assert(spec_encode_hex(b@) == out@ + spec_encode_hex(b@.skip(i as int)));
        }
    }
    proof {
        assert(b@.skip(i as int) =~= Seq::<u8>::empty());
        assert(out@ =~= spec_encode_hex(b@));
    }
    out
}

pub proof fn lemma_encode_hex_len(b: Seq<u8>)
    ensures
        spec_encode_hex(b).len() == 2 * b.len(),
    decreases b.len(),
{
    if b.len() > 0 {
        lemma_encode_hex_len(b.drop_first());
    }
}

/// Encoding bytes as lowercase hex text and decoding the text again gives
/// the bytes back.
pub proof fn lemma_hex_round_trip(b: Seq<u8>)
    ensures
        spec_is_hex_text(spec_encode_hex(b)),
        spec_encode_hex(b).len() % 2 == 0,
        spec_decode_hex(spec_encode_hex(b)) == b,
    decreases b.len(),
{
    lemma_encode_hex_len(b);
    if b.len() == 0 {
        assert(spec_decode_hex(spec_encode_hex(b)) =~= b);
    } else {
        let e = spec_encode_hex(b);
        let x = b[0];
        lemma_hex_round_trip(b.drop_first());
        assert((x >> 4) < 16 && (x & 0x0f) < 16) by (bit_vector);
        assert(x == ((x >> 4) * 16 + (x & 0x0f))) by (bit_vector);
        assert(spec_is_hex_digit(spec_hex_digit((x >> 4) as nat)));
        assert(spec_is_hex_digit(spec_hex_digit((x & 0x0f) as nat)));
        assert(spec_hex_val(spec_hex_digit((x >> 4) as nat)) == (x >> 4) as nat);
        assert(spec_hex_val(spec_hex_digit((x & 0x0f) as nat)) == (x & 0x0f) as nat);
        assert(e.skip(2) =~= spec_encode_hex(b.drop_first()));
        assert(forall|i: int|
            0 <= i < e.len() ==> spec_is_hex_digit(#[trigger] e[i])) by {
            assert forall|i: int| 0 <= i < e.len() implies spec_is_hex_digit(#[trigger] e[i]) by {
                if i >= 2 {
                    assert(e[i] == spec_encode_hex(b.drop_first())[i - 2]);
                }
            }
        }
        assert(spec_decode_hex(e) == seq![
            (spec_hex_val(e[0]) * 16 + spec_hex_val(e[1])) as u8,
        ] + spec_decode_hex(e.skip(2)));
        assert(spec_decode_hex(e) =~= b);
    }
}

/// Strip one leading `0x` marker from a hex text, if present.
pub open spec fn spec_strip_0x(s: Seq<u8>) -> Seq<u8> {
    if s.len() >= 2 && s[0] == 0x30 && s[1] == 0x78 {
        s.skip(2)
    } else {
        s
    }
}

/// Strip every leading `00` digit pair used as padding.
pub open spec fn spec_strip_null_pairs(s: Seq<u8>) -> Seq<u8>
    decreases s.len(),
{
    if s.len() >= 2 && s[0] == 0x30 && s[1] == 0x30 {
        spec_strip_null_pairs(s.skip(2))
    } else {
        s
    }
}

/// Canonical form of a hex target: the optional `0x` marker and any
/// null-byte padding pairs removed.
pub open spec fn spec_canonical_hex(s: Seq<u8>) -> Seq<u8> {
    spec_strip_null_pairs(spec_strip_0x(s))
}

/// Drop a leading `0x` marker and any `00` padding pairs after it.
pub fn canonicalize_hex(s: &[u8]) -> (r: Vec<u8>)
    ensures
        r@ == spec_canonical_hex(s@),
{
    let mut start: usize = 0;
    if s.len() >= 2 && s[0] == 0x30 && s[1] == 0x78 {
        start = 2;
    }
    proof {
        assert(s@.skip(start as int) =~= spec_strip_0x(s@));
    }
    while s.len() - start > 1 && s[start] == 0x30 && s[start + 1] == 0x30
        invariant
            start <= s.len(),
            spec_strip_null_pairs(s@.skip(start as int)) == spec_canonical_hex(s@),
        decreases s.len() - start,
    {
        proof {
            assert(s@.skip(start as int)[0] == s@[start as int]);
            assert(s@.skip(start as int)[1] == s@[start as int + 1]);
            assert(s@.skip(start as int).skip(2) =~= s@.skip(start as int + 2));
        }
        start = start + 2;
    }
    let mut out: Vec<u8> = Vec::new();
    let mut i: usize = start;
    while i < s.len()
        invariant
            start <= i <= s.len(),
            out@ =~= s@.subrange(start as int, i as int),
        decreases s.len() - i,
    {
        out.push(s[i]);
        i = i + 1;
    }
    proof {
        assert(s@.subrange(start as int, s@.len() as int) =~= s@.skip(start as int));
        if start < s.len() {
            assert(!(s@.skip(start as int).len() >= 2 && s@.skip(start as int)[0] == 0x30
                && s@.skip(start as int)[1] == 0x30));
        }
        assert(spec_strip_null_pairs(s@.skip(start as int)) == s@.skip(start as int));
    }
    out
}

} // verus!
