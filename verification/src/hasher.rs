//! Deterministic filesystem hashing: ignore rules over glob patterns, and
//! the digest of a set of files. Directory walking happens outside the
//! library; the digest computed here depends only on the file set, never on
//! the order the walk produced it in.

use vstd::prelude::*;
use vstd::string::StringSliceAdditionalSpecFns;
use crate::parser::{lines_of, trim};
use crate::strutil::{lex_leq, sort_by_key};
use crate::encode::{utf8, NUL_BYTE};
use crate::digest::blake3_hex_of;

verus! {

/// Whether the glob engine matches `path` against `pattern`; a function of
/// the two texts alone. A pattern the engine refuses to compile matches
/// nothing.
pub uninterp spec fn glob_match_of(pattern: Seq<char>, path: Seq<char>) -> bool;

/// Whether the glob engine accepts `pattern` as well-formed.
pub uninterp spec fn glob_accepts(pattern: Seq<char>) -> bool;

/// Relies on glob::Pattern: compiling a pattern succeeds or fails on the
/// pattern text alone, and matching is a function of pattern and path.
#[verifier::external_body]
fn glob_match(pattern: &str, path: &str) -> (r: bool)
    ensures
        r == glob_match_of(pattern@, path@),
{
    match glob::Pattern::new(pattern) {
        Ok(p) => p.matches(path),
        Err(_) => false,
    }
}

/// Relies on glob::Pattern::new: whether a pattern compiles depends on the
/// pattern text alone.
#[verifier::external_body]
fn glob_compiles(pattern: &str) -> (r: bool)
    ensures
        r == glob_accepts(pattern@),
{
    glob::Pattern::new(pattern).is_ok()
}

/// Parsed ignore rules: one glob pattern per kept line.
pub struct IgnoreRules {
    pub patterns: Vec<String>,
}

/// The patterns an ignore file yields: each line trimmed, blank lines and
/// `#` comments dropped, and only patterns the glob engine accepts kept.
pub open spec fn patterns_of(lines: Seq<Seq<char>>) -> Seq<Seq<char>>
    decreases lines.len(),
{
    if lines.len() == 0 {
        Seq::empty()
    } else {
        let l = trim(lines[0]);
        let rest = patterns_of(lines.drop_first());
        if l.len() > 0 && l[0] != '#' && glob_accepts(l) {
            seq![l] + rest
        } else {
            rest
        }
    }
}

/// The ancestors of a path, from the path itself up: the text before each
/// `/`, ending with the first segment.
pub open spec fn ancestors_of(p: Seq<char>) -> Seq<Seq<char>>
    decreases p.len(),
    via ancestors_of_decreases
{
    if p.len() == 0 {
        seq![p]
    } else if last_slash(p) < 0 {
        seq![p]
    } else {
        seq![p] + ancestors_of(p.take(last_slash(p)))
    }
}

/// The index of the last `/` in the text, or -1 when there is none.
pub open spec fn last_slash(p: Seq<char>) -> int
    decreases p.len(),
{
    if p.len() == 0 {
        -1
    } else if p.last() == '/' {
        p.len() - 1
    } else {
        last_slash(p.drop_last())
    }
}

pub proof fn lemma_last_slash_range(p: Seq<char>)
    ensures
        -1 <= last_slash(p) < p.len(),
        last_slash(p) >= 0 ==> p[last_slash(p)] == '/',
        forall|m: int| last_slash(p) < m < p.len() ==> p[m] != '/',
    decreases p.len(),
{
    if p.len() > 0 && p.last() != '/' {
        lemma_last_slash_range(p.drop_last());
        assert(forall|m: int| 0 <= m < p.len() - 1 ==> p[m] == p.drop_last()[m]);
    }
}

#[via_fn]
proof fn ancestors_of_decreases(p: Seq<char>) {
    lemma_last_slash_range(p);
}

/// Is some ancestor of the path (the path itself, or any leading directory)
/// matched by some pattern? Empty ancestors and the bare `.` never match.
pub open spec fn ignored_spec(patterns: Seq<Seq<char>>, path: Seq<char>) -> bool {
    exists|i: int, j: int|
        {
            &&& 0 <= i < ancestors_of(path).len()
            &&& 0 <= j < patterns.len()
            &&& (#[trigger] ancestors_of(path)[i]).len() > 0
            &&& ancestors_of(path)[i] != "."@
            &&& glob_match_of(#[trigger] patterns[j], ancestors_of(path)[i])
        }
}

impl IgnoreRules {
    /// The views of the held patterns.
    pub open spec fn view_patterns(self) -> Seq<Seq<char>> {
        crate::strutil::seq_views(self.patterns@)
    }

    /// No rules: nothing is ignored.
    pub fn empty() -> (r: IgnoreRules)
        ensures
            r.view_patterns().len() == 0,
    {
        IgnoreRules { patterns: Vec::new() }
    }

    /// Parse rules from an ignore file's text: one glob per non-blank,
    /// non-comment line.
    pub fn parse(content: &str) -> (r: IgnoreRules)
        ensures
            r.view_patterns() == patterns_of(lines_of(content@)),
    {
        let n = content.unicode_len();
        let mut patterns: Vec<String> = Vec::new();
        let mut pos: usize = 0;
        let mut done = false;
        let ghost all_lines = lines_of(content@);
        let mut processed_v: Ghost<Seq<Seq<char>>> = Ghost(Seq::empty());
        proof {
            assert(content@.skip(0) =~= content@);
            assert(Seq::<Seq<char>>::empty() + lines_of(content@) =~= lines_of(content@));
            assert(patterns_of(Seq::<Seq<char>>::empty()) =~= Seq::<Seq<char>>::empty());
            assert(crate::strutil::seq_views(patterns@) =~= Seq::<Seq<char>>::empty());
        }
        while !done
            invariant
                pos <= n,
                n == content@.len(),
                all_lines == lines_of(content@),
                all_lines == (if done {
                    processed_v@
                } else {
                    processed_v@ + lines_of(content@.skip(pos as int))
                }),
                crate::strutil::seq_views(patterns@) == patterns_of(processed_v@),
            decreases n - pos + (if done { 0int } else { 1int }),
        {
            let mut k: usize = pos;
            while k < n && content.get_char(k) != '\n'
                invariant
                    pos <= k <= n,
                    n == content@.len(),
                    forall|m: int| pos <= m < k ==> content@[m] != '\n',
                decreases n - k,
            {
                k = k + 1;
            }
            let ghost rest = content@.skip(pos as int);
            let ghost seg = content@.subrange(pos as int, k as int);
            proof {
                assert(forall|m: int| 0 <= m < k - pos ==> rest[m] == content@[m + pos]);
                assert(k < n ==> rest[k - pos] == content@[k as int]);
                crate::parser::lemma_find_nl_at(rest, k as int - pos as int);
                assert(rest.take(k as int - pos as int) =~= seg);
                if k < n {
                    assert(rest.skip(k as int - pos as int + 1) =~= content@.skip(k as int + 1));
                    assert(lines_of(rest) == seq![seg] + lines_of(content@.skip(k as int + 1)));
                } else {
                    assert(rest.take(rest.len() as int) =~= rest);
                    assert(seg =~= rest);
                    assert(lines_of(rest) == seq![seg]);
                }
            }
            let line_raw = content.substring_char(pos, k);
            let t = crate::parser::trim_str(line_raw);
            let ghost tl = trim(seg);
            let tn = t.unicode_len();
            let mut kept = false;
            if tn > 0 {
                let first = t.get_char(0);
                if first != '#' {
                    if glob_compiles(t.as_str()) {
                        patterns.push(t);
                        kept = true;
                    }
                }
            }
            proof {
                let ghost old_processed = processed_v@;
                processed_v@ = processed_v@.push(seg);
                assert(old_processed.push(seg) =~= old_processed + seq![seg]);
                lemma_patterns_of_concat(old_processed, seq![seg]);
                assert(seq![seg].drop_first() =~= Seq::<Seq<char>>::empty());
                assert(patterns_of(Seq::<Seq<char>>::empty()) =~= Seq::<Seq<char>>::empty());
                assert(kept == (tl.len() > 0 && tl[0] != '#' && glob_accepts(tl)));
                if kept {
                    assert(patterns_of(seq![seg]) =~= seq![tl]);
                    assert(crate::strutil::seq_views(patterns@) =~= patterns_of(
                        old_processed,
                    ).push(tl));
                    assert(patterns_of(processed_v@) =~= patterns_of(old_processed).push(tl));
                } else {
                    assert(patterns_of(seq![seg]) =~= Seq::<Seq<char>>::empty());
                    assert(patterns_of(processed_v@) =~= patterns_of(old_processed));
                }
            }
            if k == n {
                done = true;
                proof {
                    assert(processed_v@ =~= all_lines);
                }
            } else {
                pos = k + 1;
                proof {
                    assert(all_lines =~= processed_v@ + lines_of(content@.skip(pos as int)));
                }
            }
        }
        IgnoreRules { patterns }
    }

    /// Should this path (relative to the context root) be ignored? The path
    /// itself and each of its ancestors is held against every pattern.
    pub fn is_ignored(&self, path: &str) -> (r: bool)
        ensures
            r == ignored_spec(self.view_patterns(), path@),
    {
        proof {
            reveal_strlit(".");
        }
        let mut current = path.to_owned();
        let mut keep_going = true;
        let ghost ancestors = ancestors_of(path@);
        let mut ai: Ghost<int> = Ghost(0);
        while keep_going
            invariant
                self.patterns@.len() == self.view_patterns().len(),
                ancestors == ancestors_of(path@),
                0 <= ai@,
                keep_going ==> ai@ < ancestors.len() && current@ == ancestors[ai@],
                !keep_going ==> ai@ >= ancestors.len(),
                forall|i: int, j: int|
                    0 <= i < ai@ && 0 <= j < self.view_patterns().len() && (
                    #[trigger] ancestors[i]).len() > 0 && ancestors[i] != "."@
                        ==> !glob_match_of(#[trigger] self.view_patterns()[j], ancestors[i]),
            decreases ancestors.len() - ai@,
        {
            let cn = current.unicode_len();
            let is_dot = crate::strutil::str_eq(current.as_str(), ".");
            if cn > 0 && !is_dot {
                let mut j: usize = 0;
                while j < self.patterns.len()
                    invariant
                        ancestors == ancestors_of(path@),
                        0 <= ai@ < ancestors.len(),
                        current@ == ancestors[ai@],
                        current@.len() > 0,
                        current@ != "."@,
                        j <= self.patterns@.len(),
                        forall|q: int|
                            0 <= q < j ==> !glob_match_of(
                                #[trigger] self.view_patterns()[q],
                                ancestors[ai@],
                            ),
                    decreases self.patterns@.len() - j,
                {
                    if glob_match(self.patterns[j].as_str(), current.as_str()) {
                        proof {
                            assert(glob_match_of(
                                self.view_patterns()[j as int],
                                ancestors[ai@],
                            ));
                        }
                        return true;
                    }
                    j = j + 1;
                }
            }
            // step to the parent: the text before the last slash
            let mut slash: usize = 0;
            let mut found = false;
            let mut m: usize = 0;
            while m < cn
                invariant
                    cn == current@.len(),
                    m <= cn,
                    found ==> slash < m && current@[slash as int] == '/',
                    found ==> forall|q: int| slash < q < m ==> current@[q] != '/',
                    !found ==> forall|q: int| 0 <= q < m ==> current@[q] != '/',
                decreases cn - m,
            {
                if current.get_char(m) == '/' {
                    slash = m;
                    found = true;
                }
                m = m + 1;
            }
            proof {
                lemma_last_slash_range(current@);
                if found {
                    assert(last_slash(current@) == slash as int) by {
                        if last_slash(current@) > slash as int {
                            assert(current@[last_slash(current@)] != '/');
                        }
                        if last_slash(current@) < slash as int {
                            assert(current@[slash as int] != '/');
                        }
                    }
                } else {
                    assert(last_slash(current@) < 0) by {
                        if last_slash(current@) >= 0 {
                            assert(current@[last_slash(current@)] == '/');
                        }
                    }
                }
            }
            if found {
                let parent = current.as_str().substring_char(0, slash);
                let next = parent.to_owned();
                proof {
                    assert(current@.subrange(0, slash as int) =~= current@.take(slash as int));
                    assert(ancestors_of(ancestors[ai@]) == seq![ancestors[ai@]] + ancestors_of(
                        current@.take(slash as int),
                    ));
                    lemma_ancestors_suffix(path@, ai@);
                    assert(ancestors.skip(ai@) == ancestors_of(ancestors[ai@]));
                    assert(ancestors_of(current@.take(slash as int)).len() >= 1);
                    assert(ancestors.skip(ai@).len() >= 2);
                    assert(ancestors.skip(ai@)[1] == ancestors[ai@ + 1]);
                    assert(ancestors_of(current@.take(slash as int))[0] == current@.take(
                        slash as int,
                    ));
                    assert(ancestors[ai@ + 1] == current@.take(slash as int));
                    ai@ = ai@ + 1;
                }
                current = next;
            } else {
                proof {
                    assert(ancestors_of(ancestors[ai@]) == seq![ancestors[ai@]]);
                    lemma_ancestors_suffix(path@, ai@);
                    assert(ancestors.skip(ai@) == ancestors_of(ancestors[ai@]));
                    assert(ancestors.skip(ai@).len() == 1);
                    ai@ = ai@ + 1;
                }
                keep_going = false;
            }
        }
        proof {
            if ignored_spec(self.view_patterns(), path@) {
                let (i, j) = choose|i: int, j: int|
                    {
                        &&& 0 <= i < ancestors_of(path@).len()
                        &&& 0 <= j < self.view_patterns().len()
                        &&& (#[trigger] ancestors_of(path@)[i]).len() > 0
                        &&& ancestors_of(path@)[i] != "."@
                        &&& glob_match_of(
                            #[trigger] self.view_patterns()[j],
                            ancestors_of(path@)[i],
                        )
                    };
                assert(false);
            }
        }
        false
    }
}

/// The ancestor list is suffix-closed: the ancestors after position `i` are
/// the ancestors of the ancestor at position `i`.
proof fn lemma_ancestors_suffix(p: Seq<char>, i: int)
    requires
        0 <= i < ancestors_of(p).len(),
    ensures
        ancestors_of(p).skip(i) == ancestors_of(ancestors_of(p)[i]),
        ancestors_of(p)[i].len() < p.len() || i == 0,
    decreases p.len(),
{
    lemma_last_slash_range(p);
    if i == 0 {
        assert(ancestors_of(p)[0] == p);
        assert(ancestors_of(p).skip(0) =~= ancestors_of(p));
    } else {
        assert(last_slash(p) >= 0);
        let parent = p.take(last_slash(p));
        assert(ancestors_of(p) == seq![p] + ancestors_of(parent));
        assert(ancestors_of(p)[i] == ancestors_of(parent)[i - 1]);
        lemma_ancestors_suffix(parent, i - 1);
        assert(ancestors_of(p).skip(i) =~= ancestors_of(parent).skip(i - 1));
    }
}

proof fn lemma_patterns_of_concat(a: Seq<Seq<char>>, b: Seq<Seq<char>>)
    ensures
        patterns_of(a + b) == patterns_of(a) + patterns_of(b),
    decreases a.len(),
{
    if a.len() == 0 {
        assert(a + b =~= b);
        assert(patterns_of(a) =~= Seq::<Seq<char>>::empty());
        assert(patterns_of(a + b) =~= patterns_of(a) + patterns_of(b));
    } else {
        assert((a + b)[0] == a[0]);
        assert((a + b).drop_first() =~= a.drop_first() + b);
        lemma_patterns_of_concat(a.drop_first(), b);
        assert(patterns_of(a + b) =~= patterns_of(a) + patterns_of(b));
    }
}

/// The view of one walked file: path and contents.
pub type FileView = (Seq<char>, Seq<u8>);

/// The views of a walked file list.
pub open spec fn file_views(s: Seq<(String, Vec<u8>)>) -> Seq<FileView> {
    s.map_values(|f: (String, Vec<u8>)| (f.0@, f.1@))
}

/// The path, as sort key for walked files.
pub open spec fn file_key() -> spec_fn(FileView) -> Seq<char> {
    |f: FileView| f.0
}

/// The byte material one file feeds to the hasher:
/// `path NUL contents NUL`.
pub open spec fn file_bytes(f: FileView) -> Seq<u8> {
    utf8(f.0) + seq![NUL_BYTE] + f.1 + seq![NUL_BYTE]
}

/// The material of a file list, in order.
pub open spec fn files_bytes(s: Seq<FileView>) -> Seq<u8>
    decreases s.len(),
{
    if s.len() == 0 {
        Seq::empty()
    } else {
        files_bytes(s.drop_last()) + file_bytes(s.last())
    }
}

/// The digest of a file set: files sorted by path, each fed as
/// `path NUL contents NUL`, hashed with BLAKE3.
pub open spec fn tree_hash_spec(files: Seq<FileView>) -> Seq<char> {
    blake3_hex_of(files_bytes(sort_by_key(files, file_key())))
}

/// Hash a set of files deterministically: the file list is sorted by path
/// before hashing, so the digest never depends on the order the walk
/// yielded the files in.
pub fn hash_file_entries(files: &Vec<(String, Vec<u8>)>) -> (r: String)
    ensures
        r@ == tree_hash_spec(file_views(files@)),
{
    let sorted = sort_files(files);
    let mut m: Vec<u8> = Vec::new();
    let mut i: usize = 0;
    proof {
        assert(files_bytes(file_views(sorted@).take(0)) =~= Seq::<u8>::empty());
        assert(m@ =~= files_bytes(file_views(sorted@).take(0)));
    }
    while i < sorted.len()
        invariant
            i <= sorted@.len(),
            m@ == files_bytes(file_views(sorted@).take(i as int)),
        decreases sorted@.len() - i,
    {
        crate::encode::append_str_bytes(&mut m, sorted[i].0.as_str());
        m.push(NUL_BYTE);
        m.extend_from_slice(sorted[i].1.as_slice());
        m.push(NUL_BYTE);
        proof {
            let fv = file_views(sorted@);
            assert(fv.take(i as int + 1).drop_last() =~= fv.take(i as int));
            assert(fv.take(i as int + 1).last() == fv[i as int]);
            assert(m@ =~= files_bytes(fv.take(i as int + 1)));
        }
        i = i + 1;
    }
    proof {
        let fv = file_views(sorted@);
        assert(fv.take(fv.len() as int) =~= fv);
    }
    crate::digest::blake3_hex(m.as_slice())
}

/// Sort walked files by path, deterministically.
fn sort_files(v: &Vec<(String, Vec<u8>)>) -> (r: Vec<(String, Vec<u8>)>)
    ensures
        file_views(r@) == sort_by_key(file_views(v@), file_key()),
{
    let mut out: Vec<(String, Vec<u8>)> = Vec::new();
    let mut i: usize = 0;
    proof {
        assert(file_views(v@.take(0)) =~= Seq::<FileView>::empty());
        assert(file_views(out@) =~= sort_by_key(file_views(v@.take(0)), file_key()));
    }
    while i < v.len()
        invariant
            i <= v@.len(),
            file_views(out@) == sort_by_key(file_views(v@.take(i as int)), file_key()),
        decreases v@.len() - i,
    {
        let x = (v[i].0.clone(), v[i].1.clone());
        assert(x.0@ == v@[i as int].0@ && x.1@ == v@[i as int].1@);
        let mut idx: usize = 0;
        while idx < out.len() && crate::strutil::str_leq(out[idx].0.as_str(), x.0.as_str())
            invariant
                idx <= out@.len(),
                x.0@ == v@[i as int].0@,
                forall|j: int| 0 <= j < idx ==> lex_leq((#[trigger] out@[j]).0@, x.0@),
            decreases out@.len() - idx,
        {
            idx = idx + 1;
        }
        let ghost old_out = out@;
        out.insert(idx, x);
        proof {
            let ghost xv = (v@[i as int].0@, v@[i as int].1@);
            crate::strutil::lemma_insert_by_key_at(file_views(old_out), xv, file_key(), idx as int);
            assert(file_views(out@) =~= file_views(old_out).take(idx as int) + seq![xv]
                + file_views(old_out).skip(idx as int));
            assert(file_views(out@) =~= crate::strutil::insert_by_key(
                file_views(old_out),
                xv,
                file_key(),
            ));
            assert(file_views(v@.take(i as int + 1)).drop_last() =~= file_views(v@.take(i as int)));
            assert(file_views(v@.take(i as int + 1)).last() == xv);
            assert(file_views(out@) =~= sort_by_key(file_views(v@.take(i as int + 1)), file_key()));
        }
        i = i + 1;
    }
    proof {
        assert(v@.take(v@.len() as int) =~= v@);
    }
    out
}

/// Hashing a file set is order-independent: two walks that find the same
/// files — in any order — yield the same digest, provided no path occurs
/// twice with different contents (no directory does that).
pub proof fn lemma_tree_hash_order_independent(a: Seq<FileView>, b: Seq<FileView>)
    requires
        a.to_multiset() == b.to_multiset(),
        forall|x: FileView, y: FileView|
            a.to_multiset().contains(x) && a.to_multiset().contains(y) && x.0 == y.0 ==> x == y,
    ensures
        tree_hash_spec(a) == tree_hash_spec(b),
{
    crate::strutil::lemma_sort_by_key_ensures(a, file_key());
    crate::strutil::lemma_sort_by_key_ensures(b, file_key());
    crate::strutil::lemma_sorted_unique(
        sort_by_key(a, file_key()),
        sort_by_key(b, file_key()),
        file_key(),
    );
}

} // verus!
