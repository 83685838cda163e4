//! Chunked artifacts: split a byte artifact into fixed-size content-addressed
//! layers and merge layers back into the artifact.

use vstd::prelude::*;

verus! {

/// Chunk size: artifacts are split into content-addressed layers of at most
/// this many bytes.
pub const CHUNK_SIZE: usize = 1024 * 1024;

/// One content-addressed chunk of an artifact.
pub struct ArtifactLayer {
    /// Lowercase hex BLAKE3 digest of `data`.
    pub hash: String,
    /// The chunk's bytes, at most `CHUNK_SIZE` of them.
    pub data: Vec<u8>,
}

/// The chunks an artifact splits into: full windows of `CHUNK_SIZE` bytes,
/// then the non-empty remainder. Zero bytes make zero chunks.
pub open spec fn chunks_of(data: Seq<u8>) -> Seq<Seq<u8>>
    decreases data.len(),
{
    if data.len() == 0 {
        Seq::empty()
    } else if data.len() <= CHUNK_SIZE {
        seq![data]
    } else {
        seq![data.take(CHUNK_SIZE as int)] + chunks_of(data.skip(CHUNK_SIZE as int))
    }
}

/// Concatenation of chunks, in stored order.
pub open spec fn concat_chunks(s: Seq<Seq<u8>>) -> Seq<u8>
    decreases s.len(),
{
    if s.len() == 0 {
        Seq::empty()
    } else {
        s[0] + concat_chunks(s.drop_first())
    }
}

/// Merging the chunks an artifact was split into restores the artifact,
/// byte for byte.
pub proof fn lemma_split_merge_roundtrip(data: Seq<u8>)
    ensures
        concat_chunks(chunks_of(data)) == data,
    decreases data.len(),
{
    if data.len() == 0 {
        assert(concat_chunks(chunks_of(data)) =~= data);
    } else if data.len() <= CHUNK_SIZE {
        assert(chunks_of(data) =~= seq![data]);
        assert(seq![data].drop_first() =~= Seq::<Seq<u8>>::empty());
        assert(concat_chunks(Seq::<Seq<u8>>::empty()) =~= Seq::<u8>::empty());
        assert(concat_chunks(chunks_of(data)) =~= data);
    } else {
        let head = data.take(CHUNK_SIZE as int);
        let tail = data.skip(CHUNK_SIZE as int);
        lemma_split_merge_roundtrip(tail);
        assert(chunks_of(data)[0] == head);
        assert(chunks_of(data).drop_first() =~= chunks_of(tail));
        assert(concat_chunks(chunks_of(data)) =~= head + tail);
        assert(head + tail =~= data);
    }
}

/// Split an artifact into content-addressed chunks of at most `CHUNK_SIZE`
/// bytes: each chunk carries the BLAKE3 hex digest of its own bytes, and the
/// chunks concatenate back to the artifact.
pub fn split_artifact(data: &[u8]) -> (r: Vec<ArtifactLayer>)
    ensures
        r@.len() == chunks_of(data@).len(),
        forall|i: int|
            0 <= i < r@.len() ==> {
                &&& (#[trigger] r@[i]).data@ == chunks_of(data@)[i]
                &&& r@[i].hash@ == crate::digest::blake3_hex_of(chunks_of(data@)[i])
            },
{
    let mut layers: Vec<ArtifactLayer> = Vec::new();
    let n = data.len();
    let mut off: usize = 0;
    proof {
        assert(data@.skip(0) =~= data@);
    }
    while off < n
        invariant
            n == data@.len(),
            off <= n,
            chunks_of(data@) =~= Seq::new(layers@.len(), |i: int| layers@[i].data@) + chunks_of(
                data@.skip(off as int),
            ),
            forall|i: int|
                0 <= i < layers@.len() ==> (#[trigger] layers@[i]).hash@
                    == crate::digest::blake3_hex_of(layers@[i].data@),
            off < n || chunks_of(data@.skip(off as int)).len() == 0,
        decreases n - off,
    {
        let end = if n - off > CHUNK_SIZE {
            off + CHUNK_SIZE
        } else {
            n
        };
        let mut chunk: Vec<u8> = Vec::new();
        let mut p: usize = off;
        while p < end
            invariant
                off <= p <= end <= n,
                n == data@.len(),
                chunk@ == data@.subrange(off as int, p as int),
            decreases end - p,
        {
            let b = data[p];
            chunk.push(b);
            proof {
                assert(data@.subrange(off as int, p as int + 1) =~= data@.subrange(
                    off as int,
                    p as int,
                ).push(data@[p as int]));
            }
            p = p + 1;
        }
        let h = crate::digest::blake3_hex(chunk.as_slice());
        let ghost old_layers = layers@;
        let ghost rest = data@.skip(off as int);
        layers.push(ArtifactLayer { hash: h, data: chunk });
        proof {
            if rest.len() <= CHUNK_SIZE {
                assert(end == n);
                assert(data@.subrange(off as int, end as int) =~= rest);
                assert(chunks_of(rest) =~= seq![rest]);
                assert(data@.skip(end as int).len() == 0);
                assert(chunks_of(data@.skip(end as int)) =~= Seq::<Seq<u8>>::empty());
            } else {
                assert(end == off + CHUNK_SIZE);
                assert(data@.subrange(off as int, end as int) =~= rest.take(CHUNK_SIZE as int));
                assert(rest.skip(CHUNK_SIZE as int) =~= data@.skip(end as int));
                assert(chunks_of(rest) =~= seq![rest.take(CHUNK_SIZE as int)] + chunks_of(
                    data@.skip(end as int),
                ));
            }
            assert(Seq::new(layers@.len(), |i: int| layers@[i].data@) =~= Seq::new(
                old_layers.len(),
                |i: int| old_layers[i].data@,
            ).push(data@.subrange(off as int, end as int)));
            assert(chunks_of(data@) =~= Seq::new(layers@.len(), |i: int| layers@[i].data@)
                + chunks_of(data@.skip(end as int)));
        }
        off = end;
    }
    proof {
        assert(chunks_of(data@) =~= Seq::new(layers@.len(), |i: int| layers@[i].data@));
    }
    layers
}

/// Merge chunks back into a single artifact: plain concatenation in order.
pub fn merge_artifact(layers: Vec<Vec<u8>>) -> (r: Vec<u8>)
    ensures
        r@ == concat_chunks(Seq::new(layers@.len(), |i: int| layers@[i]@)),
{
    let mut data: Vec<u8> = Vec::new();
    let mut i: usize = 0;
    let ghost views = Seq::new(layers@.len(), |i: int| layers@[i]@);
    proof {
        lemma_concat_chunks_take_zero(views);
    }
    while i < layers.len()
        invariant
            i <= layers@.len(),
            views == Seq::new(layers@.len(), |k: int| layers@[k]@),
            data@ == concat_chunks(views.take(i as int)),
        decreases layers@.len() - i,
    {
        data.extend_from_slice(layers[i].as_slice());
        proof {
            lemma_concat_chunks_push(views.take(i as int), views[i as int]);
            assert(views.take(i as int).push(views[i as int]) =~= views.take(i as int + 1));
        }
        i = i + 1;
    }
    proof {
        assert(views.take(views.len() as int) =~= views);
    }
    data
}

proof fn lemma_concat_chunks_take_zero(s: Seq<Seq<u8>>)
    ensures
        concat_chunks(s.take(0)) == Seq::<u8>::empty(),
{
    assert(s.take(0) =~= Seq::<Seq<u8>>::empty());
}

proof fn lemma_concat_chunks_push(s: Seq<Seq<u8>>, x: Seq<u8>)
    ensures
        concat_chunks(s.push(x)) == concat_chunks(s) + x,
    decreases s.len(),
{
    if s.len() == 0 {
        assert(s.push(x)[0] == x);
        assert(s.push(x).drop_first() =~= Seq::<Seq<u8>>::empty());
        assert(concat_chunks(Seq::<Seq<u8>>::empty()) =~= Seq::<u8>::empty());
        assert(concat_chunks(s.push(x)) =~= concat_chunks(s) + x);
    } else {
        assert(s.push(x)[0] == s[0]);
        assert(s.push(x).drop_first() =~= s.drop_first().push(x));
        lemma_concat_chunks_push(s.drop_first(), x);
        assert(concat_chunks(s.push(x)) =~= concat_chunks(s) + x);
    }
}

/// Which layers still have to be uploaded: exactly those the remote does not
/// already hold. Layer deduplication in the two-tier cache rests on this.
pub fn missing_layers(present: &Vec<bool>) -> (r: Vec<usize>)
    ensures
        forall|k: int| 0 <= k < r@.len() ==> (#[trigger] r@[k]) < present@.len(),
        forall|k: int| 0 <= k < r@.len() ==> !present@[r@[k] as int],
        forall|i: int| 0 <= i < present@.len() && !present@[i] ==> r@.contains(i as usize),
        forall|k1: int, k2: int| 0 <= k1 < k2 < r@.len() ==> r@[k1] < r@[k2],
{
    let mut out: Vec<usize> = Vec::new();
    let mut i: usize = 0;
    while i < present.len()
        invariant
            i <= present@.len(),
            forall|k: int| 0 <= k < out@.len() ==> (#[trigger] out@[k]) < i,
            forall|k: int| 0 <= k < out@.len() ==> !present@[out@[k] as int],
            forall|j: int| 0 <= j < i && !present@[j] ==> out@.contains(j as usize),
            forall|k1: int, k2: int| 0 <= k1 < k2 < out@.len() ==> out@[k1] < out@[k2],
        decreases present@.len() - i,
    {
        let ghost old_out = out@;
        if !present[i] {
            out.push(i);
            proof {
                assert forall|j: int| 0 <= j < i + 1 && !present@[j] implies out@.contains(
                    j as usize,
                ) by {
                    if j < i {
                        let m = choose|m: int| 0 <= m < old_out.len() && old_out[m] == j as usize;
                        assert(out@[m] == j as usize);
                    } else {
                        assert(out@.last() == i as usize);
                    }
                }
            }
        }
        i = i + 1;
    }
    out
}

} // verus!
