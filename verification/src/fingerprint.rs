//! Environment fingerprint: a digest over host characteristics (OS, CPU
//! architecture, toolchain versions, a curated set of environment variables)
//! that make a build non-portable. It is folded into every node key.
//!
//! Gathering the data from the host happens outside the library; this module
//! fixes what the fingerprint digest is for given data.

use vstd::prelude::*;

verus! {

pub struct EnvFingerprint {
    /// Operating-system name.
    pub os: String,
    /// CPU architecture.
    pub arch: String,
    /// Detected toolchain versions, in the order found.
    pub toolchain: Vec<String>,
    /// Values of the curated environment variables, as `(name, value)`.
    pub env_vars: Vec<(String, String)>,
}

/// The byte material a fingerprint hashes: OS, architecture, toolchain
/// versions in order, then the curated variables as `k=v`, key-sorted.
pub open spec fn fingerprint_material(
    os: Seq<char>,
    arch: Seq<char>,
    toolchain: Seq<Seq<char>>,
    env_vars: Seq<(Seq<char>, Seq<char>)>,
) -> Seq<u8> {
    crate::encode::utf8(os) + crate::encode::utf8(arch) + crate::encode::cat_utf8(toolchain)
        + crate::encode::env_bytes(
        crate::strutil::sort_by_key(env_vars, crate::strutil::fst_key()),
    )
}

/// The fingerprint digest for given host data.
pub open spec fn fingerprint_hash_spec(fp: EnvFingerprint) -> Seq<char> {
    crate::digest::blake3_hex_of(
        fingerprint_material(
            fp.os@,
            fp.arch@,
            crate::strutil::seq_views(fp.toolchain@),
            crate::strutil::pair_views(fp.env_vars@),
        ),
    )
}

impl EnvFingerprint {
    pub fn new(
        os: String,
        arch: String,
        toolchain: Vec<String>,
        env_vars: Vec<(String, String)>,
    ) -> (r: EnvFingerprint)
        ensures
            r.os == os,
            r.arch == arch,
            r.toolchain == toolchain,
            r.env_vars == env_vars,
    {
        EnvFingerprint { os, arch, toolchain, env_vars }
    }

    /// The fingerprint digest: deterministic for equal host data, whatever
    /// order the environment variables were gathered in.
    pub fn hash(&self) -> (r: String)
        ensures
            r@ == fingerprint_hash_spec(*self),
            r@.len() == 64,
    {
        let mut material: Vec<u8> = Vec::new();
        crate::encode::append_str_bytes(&mut material, self.os.as_str());
        crate::encode::append_str_bytes(&mut material, self.arch.as_str());
        crate::encode::append_cat_bytes(&mut material, &self.toolchain);
        let sorted = crate::strutil::sort_pairs(&self.env_vars);
        crate::encode::append_env_bytes(&mut material, &sorted);
        crate::digest::blake3_hex(material.as_slice())
    }
}

} // verus!
