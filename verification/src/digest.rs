//! Content digests: BLAKE3 and SHA-256 wrappers plus lowercase-hex rendering.
//!
//! Every content-addressed key in the engine is the lowercase hex form of a
//! 256-bit digest over some byte string.

use vstd::prelude::*;
use vstd::string::StringSliceAdditionalSpecFns;

verus! {

/// The 32 digest bytes that BLAKE3 produces for a byte string.
pub uninterp spec fn blake3_of(bytes: Seq<u8>) -> Seq<u8>;

/// The 32 digest bytes that SHA-256 produces for a byte string.
pub uninterp spec fn sha256_of(bytes: Seq<u8>) -> Seq<u8>;

/// Relies on blake3::hash: the digest is a function of the input bytes alone,
/// and is always 32 bytes long.
#[verifier::external_body]
pub fn blake3_digest(data: &[u8]) -> (r: Vec<u8>)
    ensures
        r@ == blake3_of(data@),
        r@.len() == 32,
{
    blake3::hash(data).as_bytes().to_vec()
}

/// Relies on sha2::Sha256 (via the Digest trait): the digest is a function of
/// the input bytes alone, and is always 32 bytes long.
#[verifier::external_body]
pub fn sha256_digest(data: &[u8]) -> (r: Vec<u8>)
    ensures
        r@ == sha256_of(data@),
        r@.len() == 32,
{
    <sha2::Sha256 as sha2::Digest>::digest(data).to_vec()
}

/// The lowercase hex character for a value below 16.
pub open spec fn hex_digit(n: int) -> char {
    if n == 0 {
        '0'
    } else if n == 1 {
        '1'
    } else if n == 2 {
        '2'
    } else if n == 3 {
        '3'
    } else if n == 4 {
        '4'
    } else if n == 5 {
        '5'
    } else if n == 6 {
        '6'
    } else if n == 7 {
        '7'
    } else if n == 8 {
        '8'
    } else if n == 9 {
        '9'
    } else if n == 10 {
        'a'
    } else if n == 11 {
        'b'
    } else if n == 12 {
        'c'
    } else if n == 13 {
        'd'
    } else if n == 14 {
        'e'
    } else {
        'f'
    }
}

/// Lowercase hex rendering of a byte string: two digits per byte.
pub open spec fn hex_of(bytes: Seq<u8>) -> Seq<char>
    decreases bytes.len(),
{
    if bytes.len() == 0 {
        Seq::empty()
    } else {
        seq![hex_digit((bytes[0] / 16) as int), hex_digit((bytes[0] % 16) as int)] + hex_of(bytes.drop_first())
    }
}

/// The lowercase hex digest that BLAKE3 assigns to a byte string; the form in
/// which keys are stored and compared throughout the engine.
pub open spec fn blake3_hex_of(bytes: Seq<u8>) -> Seq<char> {
    hex_of(blake3_of(bytes))
}

/// The lowercase hex digest that SHA-256 assigns to a byte string.
pub open spec fn sha256_hex_of(bytes: Seq<u8>) -> Seq<char> {
    hex_of(sha256_of(bytes))
}

/// Hex rendering doubles the length: two digits per byte.
pub proof fn lemma_hex_of_len(bytes: Seq<u8>)
    ensures
        hex_of(bytes).len() == 2 * bytes.len(),
    decreases bytes.len(),
{
    if bytes.len() > 0 {
        lemma_hex_of_len(bytes.drop_first());
    }
}

proof fn lemma_hex_of_push(bytes: Seq<u8>, b: u8)
    ensures
        hex_of(bytes.push(b)) == hex_of(bytes) + seq![
            hex_digit((b / 16) as int),
            hex_digit((b % 16) as int),
        ],
    decreases bytes.len(),
{
    if bytes.len() == 0 {
        assert(bytes.push(b) =~= seq![b]);
        assert(seq![b].drop_first() =~= Seq::<u8>::empty());
        assert(hex_of(Seq::<u8>::empty()) =~= Seq::<char>::empty());
        assert(hex_of(seq![b]) =~= seq![
            hex_digit((b / 16) as int),
            hex_digit((b % 16) as int),
        ] + hex_of(seq![b].drop_first()));
        assert(hex_of(bytes.push(b)) =~= hex_of(bytes) + seq![
            hex_digit((b / 16) as int),
            hex_digit((b % 16) as int),
        ]);
    } else {
        assert(bytes.push(b).drop_first() =~= bytes.drop_first().push(b));
        lemma_hex_of_push(bytes.drop_first(), b);
        assert(hex_of(bytes.push(b)) =~= hex_of(bytes) + seq![
            hex_digit((b / 16) as int),
            hex_digit((b % 16) as int),
        ]);
    }
}

pub(crate) fn push_hex_digit(s: &mut String, n: u8)
    requires
        n < 16,
    ensures
        final(s)@ == old(s)@.push(hex_digit(n as int)),
{
    proof {
        reveal_strlit("0");
        reveal_strlit("1");
        reveal_strlit("2");
        reveal_strlit("3");
        reveal_strlit("4");
        reveal_strlit("5");
        reveal_strlit("6");
        reveal_strlit("7");
        reveal_strlit("8");
        reveal_strlit("9");
        reveal_strlit("a");
        reveal_strlit("b");
        reveal_strlit("c");
        reveal_strlit("d");
        reveal_strlit("e");
        reveal_strlit("f");
    }
    match n {
        0 => s.append("0"),
        1 => s.append("1"),
        2 => s.append("2"),
        3 => s.append("3"),
        4 => s.append("4"),
        5 => s.append("5"),
        6 => s.append("6"),
        7 => s.append("7"),
        8 => s.append("8"),
        9 => s.append("9"),
        10 => s.append("a"),
        11 => s.append("b"),
        12 => s.append("c"),
        13 => s.append("d"),
        14 => s.append("e"),
        _ => s.append("f"),
    }
    proof {
        assert(final(s)@ =~= old(s)@.push(hex_digit(n as int)));
    }
}

/// Render bytes as lowercase hex, two digits per byte.
pub fn hex_lower(bytes: &[u8]) -> (r: String)
    ensures
        r@ == hex_of(bytes@),
{
    let mut out = String::new();
    let mut i: usize = 0;
    while i < bytes.len()
        invariant
            i <= bytes@.len(),
            out@ == hex_of(bytes@.take(i as int)),
        decreases bytes@.len() - i,
    {
        let b = bytes[i];
        proof {
            lemma_hex_of_push(bytes@.take(i as int), b);
            assert(bytes@.take(i as int).push(b) =~= bytes@.take(i as int + 1));
        }
        push_hex_digit(&mut out, b / 16);
        push_hex_digit(&mut out, b % 16);
        i = i + 1;
    }
    proof {
        assert(bytes@.take(bytes@.len() as int) =~= bytes@);
    }
    out
}

/// Hash a string with BLAKE3 and render the digest as lowercase hex.
/// Used for every node whose input is its instruction text alone.
pub fn hash_str(input: &str) -> (r: String)
    ensures
        r@ == blake3_hex_of(input.spec_bytes()),
        r@.len() == 64,
{
    let d = blake3_digest(input.as_bytes());
    proof {
        lemma_hex_of_len(d@);
    }
    hex_lower(d.as_slice())
}

/// Hash a byte string with BLAKE3 and render the digest as lowercase hex.
pub fn blake3_hex(data: &[u8]) -> (r: String)
    ensures
        r@ == blake3_hex_of(data@),
        r@.len() == 64,
{
    let d = blake3_digest(data);
    proof {
        lemma_hex_of_len(d@);
    }
    hex_lower(d.as_slice())
}

/// Hash bytes with SHA-256 and render the digest as lowercase hex.
pub fn sha256_bytes(data: &[u8]) -> (r: String)
    ensures
        r@ == sha256_hex_of(data@),
        r@.len() == 64,
{
    let d = sha256_digest(data);
    proof {
        lemma_hex_of_len(d@);
    }
    hex_lower(d.as_slice())
}

/// Hash a string's UTF-8 bytes with SHA-256 and render as lowercase hex.
pub fn sha256_string(data: &str) -> (r: String)
    ensures
        r@ == sha256_hex_of(data.spec_bytes()),
        r@.len() == 64,
{
    sha256_bytes(data.as_bytes())
}

} // verus!
