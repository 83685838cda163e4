//! Artifact manifests: an ordered set of `(path, content-hash, size)`
//! entries describing a filesystem subtree, canonicalized by path order.

use vstd::prelude::*;
use vstd::string::StringSliceAdditionalSpecFns;
use crate::strutil::{sort_by_key, lex_leq, sorted_by_key};
use crate::encode::{utf8, dec_of, NUL_BYTE};

verus! {

/// One file in a manifest.
pub struct FileEntry {
    /// Path relative to the subtree root.
    pub path: String,
    /// Lowercase hex BLAKE3 digest of the file's bytes.
    pub hash: String,
    /// File size in bytes.
    pub size: u64,
}

/// The view of one entry: path, hash and size as mathematical values.
pub type EntryView = (Seq<char>, Seq<char>, u64);

/// The views of a sequence of entries.
pub open spec fn entry_views(s: Seq<FileEntry>) -> Seq<EntryView> {
    s.map_values(|e: FileEntry| (e.path@, e.hash@, e.size))
}

/// The path, as sort key for entries.
pub open spec fn path_key() -> spec_fn(EntryView) -> Seq<char> {
    |e: EntryView| e.0
}

/// An ordered set of file entries describing a subtree.
pub struct ArtifactManifest {
    pub files: Vec<FileEntry>,
}

/// The canonical form of an entry list: sorted by path.
pub open spec fn canonical(s: Seq<EntryView>) -> Seq<EntryView> {
    sort_by_key(s, path_key())
}

/// The byte material one entry contributes to the manifest digest:
/// `path NUL hash NUL size NUL`.
pub open spec fn entry_bytes(e: EntryView) -> Seq<u8> {
    utf8(e.0) + seq![NUL_BYTE] + utf8(e.1) + seq![NUL_BYTE] + utf8(dec_of(e.2 as int)) + seq![
        NUL_BYTE,
    ]
}

/// The byte material of an entry list, in order.
pub open spec fn entries_bytes(s: Seq<EntryView>) -> Seq<u8>
    decreases s.len(),
{
    if s.len() == 0 {
        Seq::empty()
    } else {
        entries_bytes(s.drop_last()) + entry_bytes(s.last())
    }
}

/// The manifest digest: the BLAKE3 hex digest of the canonical (path-sorted)
/// serialized form.
pub open spec fn manifest_hash_spec(m: ArtifactManifest) -> Seq<char> {
    crate::digest::blake3_hex_of(entries_bytes(canonical(entry_views(m.files@))))
}

/// Drop every entry that a later entry with the same path supersedes:
/// the rightmost entry wins for each path.
pub open spec fn dedup_last(s: Seq<EntryView>) -> Seq<EntryView>
    decreases s.len(),
{
    if s.len() == 0 {
        Seq::empty()
    } else if exists|j: int| 1 <= j < s.len() && (#[trigger] s[j]).0 == s[0].0 {
        dedup_last(s.drop_first())
    } else {
        seq![s[0]] + dedup_last(s.drop_first())
    }
}

proof fn lemma_entry_views_push(s: Seq<FileEntry>, e: FileEntry)
    ensures
        entry_views(s.push(e)) == entry_views(s).push((e.path@, e.hash@, e.size)),
{
    assert(entry_views(s.push(e)) =~= entry_views(s).push((e.path@, e.hash@, e.size)));
}

/// Sort entries into canonical (path) order, deterministically.
pub fn sort_entries(v: Vec<FileEntry>) -> (r: Vec<FileEntry>)
    ensures
        entry_views(r@) == canonical(entry_views(v@)),
{
    let mut out: Vec<FileEntry> = Vec::new();
    let mut i: usize = 0;
    proof {
        assert(entry_views(v@.take(0)) =~= Seq::<EntryView>::empty());
        assert(entry_views(out@) =~= sort_by_key(entry_views(v@.take(0)), path_key()));
    }
    while i < v.len()
        invariant
            i <= v@.len(),
            entry_views(out@) == sort_by_key(entry_views(v@.take(i as int)), path_key()),
        decreases v@.len() - i,
    {
        let x = FileEntry {
            path: v[i].path.clone(),
            hash: v[i].hash.clone(),
            size: v[i].size,
        };
        assert(x.path@ == v@[i as int].path@ && x.hash@ == v@[i as int].hash@ && x.size
            == v@[i as int].size);
        let mut idx: usize = 0;
        while idx < out.len() && crate::strutil::str_leq(out[idx].path.as_str(), x.path.as_str())
            invariant
                idx <= out@.len(),
                x.path@ == v@[i as int].path@,
                forall|j: int| 0 <= j < idx ==> lex_leq((#[trigger] out@[j]).path@, x.path@),
            decreases out@.len() - idx,
        {
            idx = idx + 1;
        }
        let ghost old_out = out@;
        out.insert(idx, x);
        proof {
            let ghost xv = (v@[i as int].path@, v@[i as int].hash@, v@[i as int].size);
            crate::strutil::lemma_insert_by_key_at(entry_views(old_out), xv, path_key(), idx as int);
            assert(entry_views(out@) =~= entry_views(old_out).take(idx as int) + seq![xv]
                + entry_views(old_out).skip(idx as int));
            assert(entry_views(out@) =~= crate::strutil::insert_by_key(
                entry_views(old_out),
                xv,
                path_key(),
            ));
            assert(entry_views(v@.take(i as int + 1)).drop_last() =~= entry_views(
                v@.take(i as int),
            ));
            assert(entry_views(v@.take(i as int + 1)).last() == xv);
            assert(entry_views(out@) =~= sort_by_key(entry_views(v@.take(i as int + 1)), path_key()));
        }
        i = i + 1;
    }
    proof {
        assert(v@.take(v@.len() as int) =~= v@);
    }
    out
}

impl ArtifactManifest {
    /// Build a manifest from file contents: each file is hashed with BLAKE3,
    /// its size recorded, and the entries are canonicalized by path.
    pub fn from_files(files: &Vec<(String, Vec<u8>)>) -> (r: ArtifactManifest)
        requires
            forall|i: int| 0 <= i < files@.len() ==> (#[trigger] files@[i]).1@.len() <= u64::MAX,
        ensures
            entry_views(r.files@) == canonical(
                Seq::new(
                    files@.len(),
                    |i: int|
                        (
                            files@[i].0@,
                            crate::digest::blake3_hex_of(files@[i].1@),
                            files@[i].1@.len() as u64,
                        ),
                ),
            ),
    {
        let ghost target = Seq::new(
            files@.len(),
            |i: int|
                (
                    files@[i].0@,
                    crate::digest::blake3_hex_of(files@[i].1@),
                    files@[i].1@.len() as u64,
                ),
        );
        let mut entries: Vec<FileEntry> = Vec::new();
        let mut i: usize = 0;
        proof {
            assert(entry_views(entries@) =~= target.take(0));
        }
        while i < files.len()
            invariant
                i <= files@.len(),
                forall|k: int|
                    0 <= k < files@.len() ==> (#[trigger] files@[k]).1@.len() <= u64::MAX,
                target == Seq::new(
                    files@.len(),
                    |k: int|
                        (
                            files@[k].0@,
                            crate::digest::blake3_hex_of(files@[k].1@),
                            files@[k].1@.len() as u64,
                        ),
                ),
                entry_views(entries@) == target.take(i as int),
            decreases files@.len() - i,
        {
            let h = crate::digest::blake3_hex(files[i].1.as_slice());
            let sz = files[i].1.len() as u64;
            let ghost old_entries = entries@;
            let e = FileEntry { path: files[i].0.clone(), hash: h, size: sz };
            let ghost ev = (e.path@, e.hash@, e.size);
            entries.push(e);
            proof {
                lemma_entry_views_push(old_entries, entries@.last());
                assert(entries@ =~= old_entries.push(entries@.last()));
                assert(ev == target[i as int]);
                assert(entry_views(entries@) =~= target.take(i as int + 1));
            }
            i = i + 1;
        }
        proof {
            assert(target.take(target.len() as int) =~= target);
        }
        let sorted = sort_entries(entries);
        ArtifactManifest { files: sorted }
    }

    /// The manifest's canonical serialized form: the entries in path order,
    /// each as `path NUL hash NUL size NUL`. These are exactly the bytes the
    /// manifest digest is computed over, so a caller that stores them in the
    /// CAS under `hash()` stores a self-validating blob.
    pub fn canonical_bytes(&self) -> (r: Vec<u8>)
        ensures
            r@ == entries_bytes(canonical(entry_views(self.files@))),
    {
        let sorted = sort_entries_ref(&self.files);
        let mut m: Vec<u8> = Vec::new();
        let mut i: usize = 0;
        proof {
            assert(entries_bytes(entry_views(sorted@).take(0)) =~= Seq::<u8>::empty());
            assert(m@ =~= entries_bytes(entry_views(sorted@).take(0)));
        }
        while i < sorted.len()
            invariant
                i <= sorted@.len(),
                m@ == entries_bytes(entry_views(sorted@).take(i as int)),
            decreases sorted@.len() - i,
        {
            crate::encode::append_str_bytes(&mut m, sorted[i].path.as_str());
            m.push(NUL_BYTE);
            crate::encode::append_str_bytes(&mut m, sorted[i].hash.as_str());
            m.push(NUL_BYTE);
            let sz = crate::encode::dec_u64(sorted[i].size);
            crate::encode::append_str_bytes(&mut m, sz.as_str());
            m.push(NUL_BYTE);
            proof {
                let ev = entry_views(sorted@);
                assert(ev.take(i as int + 1).drop_last() =~= ev.take(i as int));
                assert(ev.take(i as int + 1).last() == ev[i as int]);
                assert(m@ =~= entries_bytes(ev.take(i as int + 1)));
            }
            i = i + 1;
        }
        proof {
            let ev = entry_views(sorted@);
            assert(ev.take(ev.len() as int) =~= ev);
        }
        m
    }

    /// The manifest's own digest: hash of its canonical serialized form.
    /// Determined by the set of entries alone, not by their stored order.
    pub fn hash(&self) -> (r: String)
        ensures
            r@ == manifest_hash_spec(*self),
            r@.len() == 64,
    {
        let m = self.canonical_bytes();
        crate::digest::blake3_hex(m.as_slice())
    }

    /// Union this manifest with another: entries are joined by path, the
    /// other manifest's entry winning on conflict, and the result is
    /// canonicalized by path order.
    pub fn merge(&mut self, other: &ArtifactManifest)
        ensures
            entry_views(final(self).files@) == canonical(
                dedup_last(entry_views(old(self).files@) + entry_views(other.files@)),
            ),
    {
        let mut all: Vec<FileEntry> = Vec::new();
        let mut i: usize = 0;
        let ghost cat = entry_views(self.files@) + entry_views(other.files@);
        while i < self.files.len()
            invariant
                i <= self.files@.len(),
                cat == entry_views(self.files@) + entry_views(other.files@),
                entry_views(all@) == cat.take(i as int),
            decreases self.files@.len() - i,
        {
            let ghost old_all = all@;
            all.push(
                FileEntry {
                    path: self.files[i].path.clone(),
                    hash: self.files[i].hash.clone(),
                    size: self.files[i].size,
                },
            );
            proof {
                lemma_entry_views_push(old_all, all@.last());
                assert(all@ =~= old_all.push(all@.last()));
                assert(cat[i as int] == entry_views(self.files@)[i as int]);
                assert(entry_views(all@) =~= cat.take(i as int + 1));
            }
            i = i + 1;
        }
        let mut k: usize = 0;
        let base = self.files.len();
        while k < other.files.len()
            invariant
                k <= other.files@.len(),
                base == self.files@.len(),
                cat == entry_views(self.files@) + entry_views(other.files@),
                entry_views(all@) == cat.take(base as int + k as int),
            decreases other.files@.len() - k,
        {
            let ghost old_all2 = all@;
            all.push(
                FileEntry {
                    path: other.files[k].path.clone(),
                    hash: other.files[k].hash.clone(),
                    size: other.files[k].size,
                },
            );
            proof {
                lemma_entry_views_push(old_all2, all@.last());
                assert(all@ =~= old_all2.push(all@.last()));
                assert(cat[base + k] == entry_views(other.files@)[k as int]);
                assert(entry_views(all@) =~= cat.take(base as int + k as int + 1));
            }
            k = k + 1;
        }
        proof {
            assert(cat.take(cat.len() as int) =~= cat);
            assert(entry_views(all@) == cat);
        }
        let deduped = dedup_entries(all);
        let sorted = sort_entries(deduped);
        self.files = sorted;
    }
}

/// Sort a borrowed entry list into canonical order.
fn sort_entries_ref(v: &Vec<FileEntry>) -> (r: Vec<FileEntry>)
    ensures
        entry_views(r@) == canonical(entry_views(v@)),
        sorted_by_key(entry_views(r@), path_key()),
{
    let mut copy: Vec<FileEntry> = Vec::new();
    let mut i: usize = 0;
    while i < v.len()
        invariant
            i <= v@.len(),
            entry_views(copy@) == entry_views(v@).take(i as int),
        decreases v@.len() - i,
    {
        let ghost old_copy = copy@;
        copy.push(FileEntry { path: v[i].path.clone(), hash: v[i].hash.clone(), size: v[i].size });
        proof {
            lemma_entry_views_push(old_copy, copy@.last());
            assert(copy@ =~= old_copy.push(copy@.last()));
            assert(entry_views(copy@) =~= entry_views(v@).take(i as int + 1));
        }
        i = i + 1;
    }
    proof {
        assert(entry_views(v@).take(entry_views(v@).len() as int) =~= entry_views(v@));
        assert(entry_views(copy@) == entry_views(v@));
    }
    let r = sort_entries(copy);
    proof {
        crate::strutil::lemma_sort_by_key_ensures(entry_views(v@), path_key());
    }
    r
}

/// Keep, for each path, only the rightmost entry carrying it.
fn dedup_entries(v: Vec<FileEntry>) -> (r: Vec<FileEntry>)
    ensures
        entry_views(r@) == dedup_last(entry_views(v@)),
{
    let n = v.len();
    let mut out: Vec<FileEntry> = Vec::new();
    let mut i: usize = 0;
    proof {
        assert(entry_views(v@).skip(0) =~= entry_views(v@));
    }
    while i < n
        invariant
            n == v@.len(),
            i <= n,
            dedup_last(entry_views(v@)) == entry_views(out@) + dedup_last(
                entry_views(v@).skip(i as int),
            ),
        decreases n - i,
    {
        let ghost suffix = entry_views(v@).skip(i as int);
        let mut dup = false;
        let mut j: usize = i + 1;
        while j < n && !dup
            invariant
                n == v@.len(),
                i < n,
                i + 1 <= j <= n,
                suffix == entry_views(v@).skip(i as int),
                dup ==> exists|q: int|
                    1 <= q < suffix.len() && (#[trigger] suffix[q]).0 == suffix[0].0,
                !dup ==> forall|q: int|
                    1 <= q <= j - i - 1 ==> (#[trigger] suffix[q]).0 != suffix[0].0,
            decreases n - j,
        {
            if crate::strutil::str_eq(v[j].path.as_str(), v[i].path.as_str()) {
                dup = true;
                proof {
                    assert(suffix[j - i] == entry_views(v@)[j as int]);
                    assert(suffix[0] == entry_views(v@)[i as int]);
                }
            }
            j = j + 1;
        }
        let ghost old_out = out@;
        if !dup {
            out.push(FileEntry { path: v[i].path.clone(), hash: v[i].hash.clone(), size: v[i].size });
        }
        proof {
            assert(suffix.len() > 0);
            assert(suffix.drop_first() =~= entry_views(v@).skip(i as int + 1));
            if dup {
                assert(exists|q: int| 1 <= q < suffix.len() && (#[trigger] suffix[q]).0 == suffix[0].0);
                assert(dedup_last(suffix) == dedup_last(suffix.drop_first()));
                assert(entry_views(out@) == entry_views(old_out));
            } else {
                assert(forall|q: int|
                    1 <= q < suffix.len() ==> (#[trigger] suffix[q]).0 != suffix[0].0);
                assert(dedup_last(suffix) == seq![suffix[0]] + dedup_last(suffix.drop_first()));
                assert(suffix[0] == entry_views(v@)[i as int]);
                assert(entry_views(out@) =~= entry_views(old_out).push(entry_views(v@)[i as int]));
            }
            assert(dedup_last(entry_views(v@)) =~= entry_views(out@) + dedup_last(
                entry_views(v@).skip(i as int + 1),
            ));
        }
        i = i + 1;
    }
    proof {
        assert(entry_views(v@).skip(n as int).len() == 0);
        assert(dedup_last(entry_views(v@).skip(n as int)) =~= Seq::<EntryView>::empty());
        assert(entry_views(out@) =~= dedup_last(entry_views(v@)));
    }
    out
}

} // verus!
