//! Content-addressed store layout and CAS integrity: the sharded path an
//! object lives under, the in-memory index over entries, and the check that
//! every write's bytes hash to the declared key.

use vstd::prelude::*;
use vstd::string::StringSliceAdditionalSpecFns;
use crate::error::MemoBuildError;
use crate::digest::blake3_hex_of;

verus! {

/// One entry of the local cache index.
pub struct CacheEntry {
    /// The content-addressed key.
    pub cache_key: String,
    /// Seconds since the Unix epoch when the entry was created.
    pub created_at: i64,
    /// Where the artifact's bytes live, relative to the cache root.
    pub artifact_path: String,
    /// Artifact size in bytes.
    pub size: u64,
}

/// The in-memory index of the local store: keys to entries, one entry per
/// key.
pub struct CacheIndex {
    pub entries: Vec<CacheEntry>,
}

impl CacheIndex {
    /// The keys the index holds, in storage order.
    pub open spec fn keys(self) -> Seq<Seq<char>> {
        self.entries@.map_values(|e: CacheEntry| e.cache_key@)
    }

    /// One entry per key.
    pub open spec fn wf(self) -> bool {
        forall|i: int, j: int|
            0 <= i < j < self.entries@.len() ==> (#[trigger] self.entries@[i]).cache_key@ != (
            #[trigger] self.entries@[j]).cache_key@
    }

    pub fn new() -> (r: CacheIndex)
        ensures
            r.entries@.len() == 0,
            r.wf(),
    {
        CacheIndex { entries: Vec::new() }
    }

    /// Is this key present?
    pub fn contains_key(&self, key: &str) -> (r: bool)
        ensures
            r == self.keys().contains(key@),
    {
        let mut i: usize = 0;
        while i < self.entries.len()
            invariant
                i <= self.entries@.len(),
                forall|k: int| 0 <= k < i ==> (#[trigger] self.entries@[k]).cache_key@ != key@,
            decreases self.entries@.len() - i,
        {
            if crate::strutil::str_eq(self.entries[i].cache_key.as_str(), key) {
                proof {
                    assert(self.keys()[i as int] == key@);
                }
                return true;
            }
            i = i + 1;
        }
        proof {
            if self.keys().contains(key@) {
                let w = choose|w: int| 0 <= w < self.keys().len() && self.keys()[w] == key@;
                assert(self.entries@[w].cache_key@ == key@);
                assert(false);
            }
        }
        false
    }

    /// Record an entry: replace the entry under an existing key, or append
    /// a new one. Afterwards the key is present and every other entry is
    /// untouched.
    pub fn insert(&mut self, entry: CacheEntry)
        requires
            old(self).wf(),
        ensures
            final(self).wf(),
            final(self).keys().contains(entry.cache_key@),
            exists|j: int|
                0 <= j < final(self).entries@.len() && #[trigger] final(self).entries@[j] == entry,
            forall|j: int|
                0 <= j < final(self).entries@.len() && (#[trigger] final(self).entries@[j]).cache_key@
                    != entry.cache_key@ ==> old(self).entries@.contains(final(self).entries@[j]),
            forall|k: Seq<char>|
                #[trigger] final(self).keys().contains(k) <==> (old(self).keys().contains(k) || k
                    == entry.cache_key@),
    {
        let n = self.entries.len();
        let mut i: usize = 0;
        while i < n
            invariant
                old(self).wf(),
                self == old(self),
                n == self.entries@.len(),
                i <= n,
                forall|k: int|
                    0 <= k < i ==> (#[trigger] self.entries@[k]).cache_key@ != entry.cache_key@,
            decreases n - i,
        {
            if crate::strutil::str_eq(
                self.entries[i].cache_key.as_str(),
                entry.cache_key.as_str(),
            ) {
                let ghost key_view = entry.cache_key@;
                let ghost entry_val = entry;
                let slot = &mut self.entries[i];
                *slot = entry;
                proof {
                    assert(self.entries@[i as int] == entry_val);
                    assert(self.entries@[i as int].cache_key@ == key_view);
                    assert(final(self).keys()[i as int] == key_view);
                    assert forall|j: int|
                        0 <= j < self.entries@.len() && (#[trigger] self.entries@[j]).cache_key@
                            != key_view implies old(self).entries@.contains(self.entries@[j]) by {
                        assert(j != i);
                        assert(self.entries@[j] == old(self).entries@[j]);
                    }
                    assert forall|k: Seq<char>| #[trigger]
                        self.keys().contains(k) implies (old(self).keys().contains(k) || k
                        == key_view) by {
                        let w = choose|w: int| 0 <= w < self.keys().len() && self.keys()[w] == k;
                        if w != i {
                            assert(old(self).keys()[w] == k);
                        }
                    }
                    assert forall|k: Seq<char>|
                        old(self).keys().contains(k) || k == key_view implies #[trigger] self.keys()
                        .contains(k) by {
                        if old(self).keys().contains(k) {
                            let w = choose|w: int|
                                0 <= w < old(self).keys().len() && old(self).keys()[w] == k;
                            if w == i {
                                assert(old(self).entries@[w].cache_key@ == entry.cache_key@);
                                assert(self.keys()[i as int] == k);
                            } else {
                                assert(self.keys()[w] == k);
                            }
                        } else {
                            assert(self.keys()[i as int] == k);
                        }
                    }
                }
                return ;
            }
            i = i + 1;
        }
        let ghost key_view = entry.cache_key@;
        let ghost entry_val = entry;
        let ghost old_keys = self.keys();
        self.entries.push(entry);
        proof {
            assert(self.keys() =~= old_keys.push(key_view));
            assert(self.keys().last() == key_view);
            assert(self.entries@.last() == entry_val);
            assert forall|j: int|
                0 <= j < self.entries@.len() && (#[trigger] self.entries@[j]).cache_key@
                    != key_view implies old(self).entries@.contains(self.entries@[j]) by {
                assert(j < old(self).entries@.len());
                assert(self.entries@[j] == old(self).entries@[j]);
            }
            assert forall|k: Seq<char>| #[trigger]
                self.keys().contains(k) implies (old(self).keys().contains(k) || k == key_view) by {
                let w = choose|w: int| 0 <= w < self.keys().len() && self.keys()[w] == k;
                if w < old_keys.len() {
                    assert(old_keys[w] == k);
                }
            }
            assert forall|k: Seq<char>|
                old(self).keys().contains(k) || k == key_view implies #[trigger] self.keys()
                .contains(k) by {
                if old(self).keys().contains(k) {
                    let w = choose|w: int| 0 <= w < old_keys.len() && old_keys[w] == k;
                    assert(self.keys()[w] == k);
                } else {
                    assert(self.keys().last() == k);
                }
            }
        }
    }
}

/// The local blob store: a root directory, objects sharded two levels deep
/// by their leading hex characters.
pub struct LocalStorage {
    /// The `blobs/sha256` directory all objects live under.
    pub base_dir: String,
}

impl LocalStorage {
    /// Place the store under `<base>/blobs/sha256`.
    pub fn new(base_dir: &str) -> (r: LocalStorage)
        ensures
            r.base_dir@ == base_dir@ + "/blobs/sha256"@,
    {
        let mut d = base_dir.to_owned();
        d.append("/blobs/sha256");
        LocalStorage { base_dir: d }
    }

    /// The sharded path of an object: `<base>/ab/cd/abcd…` for a hash
    /// `abcd…`, or directly under the base when the hash is too short to
    /// shard.
    pub fn get_sharded_path(&self, hash: &str) -> (r: String)
        ensures
            hash@.len() < 4 ==> r@ == self.base_dir@ + "/"@ + hash@,
            hash@.len() >= 4 ==> r@ == self.base_dir@ + "/"@ + hash@.take(2) + "/"@
                + hash@.subrange(2, 4) + "/"@ + hash@,
    {
        let n = hash.unicode_len();
        let mut p = self.base_dir.clone();
        p.append("/");
        if n < 4 {
            p.append(hash);
            p
        } else {
            let s1 = hash.substring_char(0, 2);
            let s2 = hash.substring_char(2, 4);
            p.append(s1);
            p.append("/");
            p.append(s2);
            p.append("/");
            p.append(hash);
            proof {
                assert(hash@.subrange(0, 2) =~= hash@.take(2));
            }
            p
        }
    }
}

/// Verify a CAS write: the bytes must hash to the declared key, or the
/// write is rejected with an integrity failure naming both digests.
pub fn cas_check(hash: &str, body: &[u8]) -> (r: Result<(), MemoBuildError>)
    ensures
        r is Ok <==> hash@ == blake3_hex_of(body@),
        r matches Err(e) ==> (e matches MemoBuildError::CASIntegrityFailure {
            expected,
            actual,
            data_size,
        } && expected@ == hash@ && actual@ == blake3_hex_of(body@) && data_size == body@.len()),
{
    let actual = crate::digest::blake3_hex(body);
    if crate::strutil::str_eq(actual.as_str(), hash) {
        Ok(())
    } else {
        Err(
            MemoBuildError::CASIntegrityFailure {
                expected: hash.to_owned(),
                actual,
                data_size: body.len(),
            },
        )
    }
}

} // verus!
