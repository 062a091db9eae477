use vstd::prelude::*;

verus! {

// Component B: compiler fingerprinting.  The bytecode tail carries a
// CBOR-encoded metadata blob; the producer's key and its version bytes
// are looked for directly.  There is no failure path: anything
// unrecognized reports ("unknown", "unknown").

/// The marker `m`, with `tail` more bytes after it, fits `s` at `i`.
pub open spec fn spec_marker_at(s: Seq<u8>, m: Seq<u8>, tail: nat, i: int) -> bool {
    0 <= i && i + m.len() + tail <= s.len() && s.subrange(i, i + m.len() as int) == m
}

/// `m` stands verbatim in `s` at offset `i`.
fn slice_match_at(s: &[u8], m: &[u8], i: usize) -> (r: bool)
    requires
        i + m@.len() <= s@.len(),
        s@.len() < 0x1000_0000,
    ensures
        r == (s@.subrange(i as int, i as int + m@.len() as int) == m@),
{
    let mut k: usize = 0;
    while k < m.len()
        invariant
            k <= m@.len(),
            i + m@.len() <= s@.len(),
            s@.len() < 0x1000_0000,
            forall|q: int| 0 <= q < k ==> s@[i + q] == m@[q],
        decreases m@.len() - k,
    {
        if s[i + k] != m[k] {
            proof {
                assert(s@.subrange(i as int, i as int + m@.len() as int)[k as int] == s@[i as int
                    + k as int]);
            }
            return false;
        }
        k = k + 1;
    }
    proof {
        assert(s@.subrange(i as int, i as int + m@.len() as int) =~= m@);
    }
    true
}

/// Find the first place where `m` occurs with `tail` bytes of room after
/// it.
pub fn find_marker(s: &[u8], m: &[u8], tail: usize) -> (r: Option<usize>)
    requires
        m@.len() >= 1,
        s@.len() < 0x1000_0000,
        m@.len() + tail < 0x1000_0000,
    ensures
        match r {
            Some(i) => spec_marker_at(s@, m@, tail as nat, i as int) && forall|j: int|
                0 <= j < i ==> !spec_marker_at(s@, m@, tail as nat, j),
            None => forall|j: int| !spec_marker_at(s@, m@, tail as nat, j),
        },
{
    if m.len() + tail > s.len() {
        return None;
    }
    let last = s.len() - m.len() - tail;
    let mut i: usize = 0;
    while i <= last
        invariant
            i <= last + 1,
            last == s@.len() - m@.len() - tail,
            m@.len() >= 1,
            s@.len() < 0x1000_0000,
            m@.len() + tail < 0x1000_0000,
            forall|j: int| 0 <= j < i ==> !spec_marker_at(s@, m@, tail as nat, j),
        decreases last + 1 - i,
    {
        if slice_match_at(s, m, i) {
            return Some(i);
        }
        i = i + 1;
    }
    return None;
}

/// The ASCII decimal digits of `n`.
pub open spec fn spec_dec_bytes(n: nat) -> Seq<u8>
    decreases n,
{
    if n < 10 {
        seq![(0x30 + n) as u8]
    } else {
        spec_dec_bytes(n / 10).push((0x30 + n % 10) as u8)
    }
}

/// Render a byte as ASCII decimal digits.
pub fn u8_dec_bytes(v: u8) -> (r: Vec<u8>)
    ensures
        r@ == spec_dec_bytes(v as nat),
{
    let mut out: Vec<u8> = Vec::new();
    if v >= 100 {
        out.push(0x30 + v / 100);
        out.push(0x30 + (v / 10) % 10);
        out.push(0x30 + v % 10);
        proof {
            assert(spec_dec_bytes(v as nat) == spec_dec_bytes((v as nat) / 10).push(
                (0x30 + (v as nat) % 10) as u8,
            ));
            assert(spec_dec_bytes((v as nat) / 10) == spec_dec_bytes((v as nat) / 10 / 10).push(
                (0x30 + ((v as nat) / 10) % 10) as u8,
            ));
            assert((v as nat) / 10 / 10 == (v as nat) / 100);
            assert(out@ =~= spec_dec_bytes(v as nat));
        }
    } else if v >= 10 {
        out.push(0x30 + v / 10);
        out.push(0x30 + v % 10);
        proof {
            assert(spec_dec_bytes(v as nat) == spec_dec_bytes((v as nat) / 10).push(
                (0x30 + (v as nat) % 10) as u8,
            ));
            assert(out@ =~= spec_dec_bytes(v as nat));
        }
    } else {
        out.push(0x30 + v);
        proof {
            assert(out@ =~= spec_dec_bytes(v as nat));
        }
    }
    out
}

/// The characters of an ASCII byte string.
pub open spec fn spec_ascii_chars(s: Seq<u8>) -> Seq<char> {
    Seq::new(s.len(), |i: int| s[i] as char)
}

/// Relies on String::from_utf8: ASCII bytes decode to exactly their
/// characters, one per byte.
#[verifier::external_body]
pub fn ascii_string(bytes: Vec<u8>) -> (r: String)
    requires
        forall|i: int| 0 <= i < bytes@.len() ==> bytes@[i] < 0x80,
    ensures
        r@ == spec_ascii_chars(bytes@),
{
    String::from_utf8(bytes).unwrap_or_default()
}

/// `maj.min.pat` as ASCII bytes.
pub open spec fn spec_version_bytes(maj: u8, min: u8, pat: u8) -> Seq<u8> {
    spec_dec_bytes(maj as nat) + seq![0x2eu8] + spec_dec_bytes(min as nat) + seq![0x2eu8]
        + spec_dec_bytes(pat as nat)
}

pub proof fn lemma_dec_bytes_ascii(n: nat)
    ensures
        forall|i: int|
            0 <= i < spec_dec_bytes(n).len() ==> 0x30 <= #[trigger] spec_dec_bytes(n)[i] < 0x80,
    decreases n,
{
    if n >= 10 {
        lemma_dec_bytes_ascii(n / 10);
        assert forall|i: int|
            0 <= i < spec_dec_bytes(n).len() implies 0x30 <= #[trigger] spec_dec_bytes(n)[i]
            < 0x80 by {
            if i < spec_dec_bytes(n / 10).len() {
                assert(spec_dec_bytes(n)[i] == spec_dec_bytes(n / 10)[i]);
            }
        }
    }
}

/// Render a version triple as `maj.min.pat`.
pub fn version_string(maj: u8, min: u8, pat: u8) -> (r: String)
    ensures
        r@ == spec_ascii_chars(spec_version_bytes(maj, min, pat)),
{
    let mut b = u8_dec_bytes(maj);
    b.push(0x2e);
    let mut mid = u8_dec_bytes(min);
    b.append(&mut mid);
    b.push(0x2e);
    let mut tail = u8_dec_bytes(pat);
    b.append(&mut tail);
    proof {
        lemma_dec_bytes_ascii(maj as nat);
        lemma_dec_bytes_ascii(min as nat);
        lemma_dec_bytes_ascii(pat as nat);
        assert(b@ =~= spec_version_bytes(maj, min, pat));
        assert forall|i: int| 0 <= i < b@.len() implies b@[i] < 0x80 by {
            assert(b@[i] == spec_version_bytes(maj, min, pat)[i]);
        }
    }
    ascii_string(b)
}

/// The metadata key marking solc output: `dsolcC` — the CBOR text key
/// `solc` followed by the 3-byte-version tag.
pub open spec fn spec_solc_marker() -> Seq<u8> {
    seq![0x64u8, 0x73u8, 0x6fu8, 0x6cu8, 0x63u8, 0x43u8]
}

/// The metadata key marking vyper output: `evyper` followed by the
/// three-element version list tag.
pub open spec fn spec_vyper_marker() -> Seq<u8> {
    seq![0x65u8, 0x76u8, 0x79u8, 0x70u8, 0x65u8, 0x72u8, 0x83u8]
}

fn solc_marker() -> (r: Vec<u8>)
    ensures
        r@ == spec_solc_marker(),
{
    let mut v: Vec<u8> = Vec::new();
    v.push(0x64);
    v.push(0x73);
    v.push(0x6f);
    v.push(0x6c);
    v.push(0x63);
    v.push(0x43);
    proof {
        assert(v@ =~= spec_solc_marker());
    }
    v
}

fn vyper_marker() -> (r: Vec<u8>)
    ensures
        r@ == spec_vyper_marker(),
{
    let mut v: Vec<u8> = Vec::new();
    v.push(0x65);
    v.push(0x76);
    v.push(0x79);
    v.push(0x70);
    v.push(0x65);
    v.push(0x72);
    v.push(0x83);
    proof {
        assert(v@ =~= spec_vyper_marker());
    }
    v
}

/// Some position holds the marker with three version bytes after it.
pub open spec fn spec_has_versioned_marker(s: Seq<u8>, m: Seq<u8>) -> bool {
    exists|i: int| spec_marker_at(s, m, 3, i)
}

/// Report the producer and its version from the metadata blob:
/// `("solc", version)` or `("vyper", version)` when the respective
/// marker occurs with three version bytes after it (solc checked
/// first), `("unknown", "unknown")` otherwise.  No failure path.
pub fn detect_compiler(bytes: &[u8]) -> (r: (String, String))
    requires
        bytes@.len() < 0x1000_0000,
    ensures
        spec_has_versioned_marker(bytes@, spec_solc_marker()) <==> r.0@ == "solc"@,
        (!spec_has_versioned_marker(bytes@, spec_solc_marker()) && spec_has_versioned_marker(
            bytes@,
            spec_vyper_marker(),
        )) <==> r.0@ == "vyper"@,
        (!spec_has_versioned_marker(bytes@, spec_solc_marker()) && !spec_has_versioned_marker(
            bytes@,
            spec_vyper_marker(),
        )) <==> r.0@ == "unknown"@,
        spec_has_versioned_marker(bytes@, spec_solc_marker()) ==> exists|i: int|
            #[trigger] spec_marker_at(bytes@, spec_solc_marker(), 3, i) && (forall|j: int|
                0 <= j < i ==> !spec_marker_at(bytes@, spec_solc_marker(), 3, j)) && r.1@
                == spec_ascii_chars(
                spec_version_bytes(bytes@[i + 6], bytes@[i + 7], bytes@[i + 8]),
            ),
        (!spec_has_versioned_marker(bytes@, spec_solc_marker()) && spec_has_versioned_marker(
            bytes@,
            spec_vyper_marker(),
        )) ==> exists|i: int|
            #[trigger] spec_marker_at(bytes@, spec_vyper_marker(), 3, i) && (forall|j: int|
                0 <= j < i ==> !spec_marker_at(bytes@, spec_vyper_marker(), 3, j)) && r.1@
                == spec_ascii_chars(
                spec_version_bytes(bytes@[i + 7], bytes@[i + 8], bytes@[i + 9]),
            ),
{
    proof {
        reveal_strlit("solc");
        reveal_strlit("vyper");
        reveal_strlit("unknown");
        assert("solc"@.len() == 4 && "vyper"@.len() == 5 && "unknown"@.len() == 7);
        assert("solc"@ != "vyper"@ && "solc"@ != "unknown"@ && "vyper"@ != "unknown"@);
    }
    let sm = solc_marker();
    if let Some(i) = find_marker(bytes, sm.as_slice(), 3) {
        let ver = version_string(bytes[i + 6], bytes[i + 7], bytes[i + 8]);
        let producer = String::from_str("solc");
        return (producer, ver);
    }
    let vm = vyper_marker();
    if let Some(i) = find_marker(bytes, vm.as_slice(), 3) {
        let ver = version_string(bytes[i + 7], bytes[i + 8], bytes[i + 9]);
        let producer = String::from_str("vyper");
        return (producer, ver);
    }
    (String::from_str("unknown"), String::from_str("unknown"))
}

} // verus!
