//! Byte-material construction: the exact byte strings that are fed to the
//! hashers when composite keys, fingerprints and manifests are computed.

use vstd::prelude::*;
use vstd::string::StringSliceAdditionalSpecFns;

verus! {

/// The UTF-8 bytes of a character sequence.
pub open spec fn utf8(s: Seq<char>) -> Seq<u8> {
    vstd::utf8::encode_utf8(s)
}

/// Concatenating character sequences concatenates their UTF-8 encodings.
pub proof fn lemma_utf8_concat(a: Seq<char>, b: Seq<char>)
    ensures
        utf8(a + b) == utf8(a) + utf8(b),
    decreases a.len(),
{
    if a.len() == 0 {
        assert(a + b =~= b);
        assert(utf8(a) =~= Seq::<u8>::empty());
        assert(utf8(a + b) =~= utf8(a) + utf8(b));
    } else {
        assert((a + b)[0] == a[0]);
        assert((a + b).drop_first() =~= a.drop_first() + b);
        lemma_utf8_concat(a.drop_first(), b);
        assert(utf8(a + b) =~= utf8(a) + utf8(b));
    }
}

/// The byte separating a key from its value in hashed `k=v` material.
pub const EQ_BYTE: u8 = 61;

/// The NUL byte separating fields in hashed file material.
pub const NUL_BYTE: u8 = 0;

/// Append a string's UTF-8 bytes to a byte buffer.
pub fn append_str_bytes(out: &mut Vec<u8>, s: &str)
    ensures
        final(out)@ == old(out)@ + utf8(s@),
{
    out.extend_from_slice(s.as_bytes());
}

/// The decimal rendering of a non-negative integer.
pub open spec fn dec_of(n: int) -> Seq<char>
    decreases n,
{
    if n < 10 {
        seq![crate::digest::hex_digit(if n < 0 { 0 } else { n })]
    } else {
        dec_of(n / 10) + seq![crate::digest::hex_digit(n % 10)]
    }
}

/// Render an integer in decimal.
pub fn dec_u64(n: u64) -> (r: String)
    ensures
        r@ == dec_of(n as int),
    decreases n,
{
    if n < 10 {
        let mut s = String::new();
        crate::digest::push_hex_digit(&mut s, n as u8);
        proof {
            assert(s@ =~= dec_of(n as int));
        }
        s
    } else {
        let mut s = dec_u64(n / 10);
        crate::digest::push_hex_digit(&mut s, (n % 10) as u8);
        proof {
            assert(s@ =~= dec_of(n as int));
        }
        s
    }
}

/// The bytes contributed by one `k=v` environment binding.
pub open spec fn env_pair_bytes(p: (Seq<char>, Seq<char>)) -> Seq<u8> {
    utf8(p.0) + seq![EQ_BYTE] + utf8(p.1)
}

/// The bytes contributed by a list of environment bindings, in order.
pub open spec fn env_bytes(s: Seq<(Seq<char>, Seq<char>)>) -> Seq<u8>
    decreases s.len(),
{
    if s.len() == 0 {
        Seq::empty()
    } else {
        env_bytes(s.drop_last()) + env_pair_bytes(s.last())
    }
}

/// The concatenated UTF-8 bytes of a list of strings, in order.
pub open spec fn cat_utf8(s: Seq<Seq<char>>) -> Seq<u8>
    decreases s.len(),
{
    if s.len() == 0 {
        Seq::empty()
    } else {
        cat_utf8(s.drop_last()) + utf8(s.last())
    }
}

/// Append each `k=v` binding's bytes, in the order given.
pub fn append_env_bytes(out: &mut Vec<u8>, pairs: &Vec<(String, String)>)
    ensures
        final(out)@ == old(out)@ + env_bytes(crate::strutil::pair_views(pairs@)),
{
    let mut i: usize = 0;
    proof {
        assert(env_bytes(crate::strutil::pair_views(pairs@).take(0)) =~= Seq::<u8>::empty());
        assert(out@ =~= out@ + env_bytes(crate::strutil::pair_views(pairs@).take(0)));
    }
    while i < pairs.len()
        invariant
            i <= pairs@.len(),
            out@ == old(out)@ + env_bytes(crate::strutil::pair_views(pairs@).take(i as int)),
        decreases pairs@.len() - i,
    {
        append_str_bytes(out, pairs[i].0.as_str());
        out.push(EQ_BYTE);
        append_str_bytes(out, pairs[i].1.as_str());
        proof {
            let pv = crate::strutil::pair_views(pairs@);
            assert(pv.take(i as int + 1).drop_last() =~= pv.take(i as int));
            assert(pv.take(i as int + 1).last() == pv[i as int]);
            assert(out@ =~= old(out)@ + env_bytes(pv.take(i as int + 1)));
        }
        i = i + 1;
    }
    proof {
        let pv = crate::strutil::pair_views(pairs@);
        assert(pv.take(pv.len() as int) =~= pv);
    }
}

/// Append each string's bytes, in the order given.
pub fn append_cat_bytes(out: &mut Vec<u8>, items: &Vec<String>)
    ensures
        final(out)@ == old(out)@ + cat_utf8(crate::strutil::seq_views(items@)),
{
    let mut i: usize = 0;
    proof {
        assert(cat_utf8(crate::strutil::seq_views(items@).take(0)) =~= Seq::<u8>::empty());
        assert(out@ =~= out@ + cat_utf8(crate::strutil::seq_views(items@).take(0)));
    }
    while i < items.len()
        invariant
            i <= items@.len(),
            out@ == old(out)@ + cat_utf8(crate::strutil::seq_views(items@).take(i as int)),
        decreases items@.len() - i,
    {
        append_str_bytes(out, items[i].as_str());
        proof {
            let sv = crate::strutil::seq_views(items@);
            assert(sv.take(i as int + 1).drop_last() =~= sv.take(i as int));
            assert(sv.take(i as int + 1).last() == sv[i as int]);
            assert(out@ =~= old(out)@ + cat_utf8(sv.take(i as int + 1)));
        }
        i = i + 1;
    }
    proof {
        let sv = crate::strutil::seq_views(items@);
        assert(sv.take(sv.len() as int) =~= sv);
    }
}

/// The bytes of an optional string: nothing when absent.
pub open spec fn opt_utf8(s: Option<Seq<char>>) -> Seq<u8> {
    match s {
        Some(v) => utf8(v),
        None => Seq::empty(),
    }
}

} // verus!
