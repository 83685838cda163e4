//! String utilities: lexicographic ordering, deterministic sorting, and
//! substring search, with full functional specifications.
//!
//! The engine sorts file paths, environment keys and dependency keys before
//! hashing, so a canonical, machine-independent order is load-bearing here.

use vstd::prelude::*;
use vstd::multiset::Multiset;

verus! {

broadcast use vstd::utf8::char_is_scalar;

/// Distinct characters have distinct Unicode scalar values.
pub proof fn lemma_char_cast_injective(x: char, y: char)
    requires
        x != y,
    ensures
        x as u32 != y as u32,
{
    if x as u32 == y as u32 {
        vstd::utf8::char_u32_cast(x, x as u32);
        vstd::utf8::char_u32_cast(y, y as u32);
    }
}

/// Lexicographic order on character sequences by Unicode scalar value.
/// For UTF-8 encoded text this coincides with byte-lexicographic order.
pub open spec fn lex_leq(a: Seq<char>, b: Seq<char>) -> bool
    decreases a.len(),
{
    if a.len() == 0 {
        true
    } else if b.len() == 0 {
        false
    } else if a[0] == b[0] {
        lex_leq(a.drop_first(), b.drop_first())
    } else {
        (a[0] as u32) < (b[0] as u32)
    }
}

pub proof fn lemma_lex_leq_total(a: Seq<char>, b: Seq<char>)
    ensures
        lex_leq(a, b) || lex_leq(b, a),
    decreases a.len(),
{
    if a.len() == 0 || b.len() == 0 {
    } else if a[0] == b[0] {
        lemma_lex_leq_total(a.drop_first(), b.drop_first());
    } else {
        lemma_char_cast_injective(a[0], b[0]);
    }
}

pub proof fn lemma_lex_leq_antisymmetric(a: Seq<char>, b: Seq<char>)
    requires
        lex_leq(a, b),
        lex_leq(b, a),
    ensures
        a == b,
    decreases a.len(),
{
    if a.len() == 0 {
        assert(b.len() == 0);
        assert(a =~= b);
    } else {
        assert(a[0] == b[0]);
        lemma_lex_leq_antisymmetric(a.drop_first(), b.drop_first());
        assert(a =~= seq![a[0]] + a.drop_first());
        assert(b =~= seq![b[0]] + b.drop_first());
    }
}

pub proof fn lemma_lex_leq_transitive(a: Seq<char>, b: Seq<char>, c: Seq<char>)
    requires
        lex_leq(a, b),
        lex_leq(b, c),
    ensures
        lex_leq(a, c),
    decreases a.len(),
{
    if a.len() == 0 || b.len() == 0 || c.len() == 0 {
    } else if a[0] == b[0] && b[0] == c[0] {
        lemma_lex_leq_transitive(a.drop_first(), b.drop_first(), c.drop_first());
    }
}

/// `lex_leq` restricted to a decision at one position: if the first `i`
/// characters agree, the order is decided by the tails.
proof fn lemma_lex_leq_skip(a: Seq<char>, b: Seq<char>, i: int)
    requires
        0 <= i <= a.len(),
        i <= b.len(),
        a.take(i) == b.take(i),
    ensures
        lex_leq(a, b) == lex_leq(a.skip(i), b.skip(i)),
    decreases i,
{
    if i > 0 {
        assert(a.take(i)[0] == a[0]);
        assert(b.take(i)[0] == b[0]);
        assert(a[0] == b[0]);
        assert(a.drop_first().take(i - 1) =~= a.take(i).drop_first());
        assert(b.drop_first().take(i - 1) =~= b.take(i).drop_first());
        lemma_lex_leq_skip(a.drop_first(), b.drop_first(), i - 1);
        assert(a.drop_first().skip(i - 1) =~= a.skip(i));
        assert(b.drop_first().skip(i - 1) =~= b.skip(i));
        assert(a.len() > 0 && b.len() > 0);
    } else {
        assert(a.skip(0) =~= a);
        assert(b.skip(0) =~= b);
    }
}

/// Compare two strings in lexicographic (byte) order.
pub fn str_leq(a: &str, b: &str) -> (r: bool)
    ensures
        r == lex_leq(a@, b@),
{
    let alen = a.unicode_len();
    let blen = b.unicode_len();
    let mut i: usize = 0;
    loop
        invariant
            i <= alen,
            i <= blen,
            alen == a@.len(),
            blen == b@.len(),
            a@.take(i as int) == b@.take(i as int),
        ensures
            ({
                let r: bool = if i >= alen {
                    true
                } else if i >= blen {
                    false
                } else {
                    (a@[i as int] as u32) < (b@[i as int] as u32)
                };
                r == lex_leq(a@, b@) && a@.take(i as int) == b@.take(i as int) && (i <= alen && i
                    <= blen)
            }),
        decreases alen - i,
    {
        proof {
            lemma_lex_leq_skip(a@, b@, i as int);
        }
        if i >= alen {
            proof {
                assert(a@.skip(i as int) =~= Seq::<char>::empty());
            }
            break ;
        }
        if i >= blen {
            proof {
                assert(b@.skip(i as int) =~= Seq::<char>::empty());
                assert(a@.skip(i as int).len() > 0);
            }
            break ;
        }
        let ca = a.get_char(i);
        let cb = b.get_char(i);
        proof {
            assert(a@.skip(i as int)[0] == a@[i as int]);
            assert(b@.skip(i as int)[0] == b@[i as int]);
        }
        if ca as u32 != cb as u32 {
            break ;
        }
        proof {
            if ca != cb {
                lemma_char_cast_injective(ca, cb);
            }
            assert(ca == cb);
            assert(a@.take(i as int + 1) =~= a@.take(i as int).push(a@[i as int]));
            assert(b@.take(i as int + 1) =~= b@.take(i as int).push(b@[i as int]));
        }
        i = i + 1;
    }
    if i >= alen {
        true
    } else if i >= blen {
        false
    } else {
        let ca = a.get_char(i);
        let cb = b.get_char(i);
        (ca as u32) < (cb as u32)
    }
}

pub proof fn lemma_lex_leq_reflexive(a: Seq<char>)
    ensures
        lex_leq(a, a),
    decreases a.len(),
{
    if a.len() > 0 {
        lemma_lex_leq_reflexive(a.drop_first());
    }
}

/// Are two strings equal, character for character?
pub fn str_eq(a: &str, b: &str) -> (r: bool)
    ensures
        r == (a@ == b@),
{
    let le = str_leq(a, b);
    let ge = str_leq(b, a);
    proof {
        if le && ge {
            lemma_lex_leq_antisymmetric(a@, b@);
        }
        if a@ == b@ {
            lemma_lex_leq_reflexive(a@);
        }
    }
    le && ge
}

/// True when `needle` occurs as a contiguous subsequence of `hay`.
pub open spec fn contains_seq(hay: Seq<char>, needle: Seq<char>) -> bool {
    exists|i: int|
        0 <= i && i + needle.len() <= hay.len() && #[trigger] hay.subrange(i, i + needle.len())
            == needle
}

/// Substring search: does `hay` contain `needle`?
pub fn contains_sub(hay: &str, needle: &str) -> (r: bool)
    ensures
        r == contains_seq(hay@, needle@),
{
    let hlen = hay.unicode_len();
    let nlen = needle.unicode_len();
    if nlen > hlen {
        proof {
            assert(!contains_seq(hay@, needle@));
        }
        return false;
    }
    if nlen == 0 {
        proof {
            assert(contains_seq(hay@, needle@)) by {
                assert(hay@.subrange(0, 0 + needle@.len() as int) =~= needle@);
            }
        }
        return true;
    }
    let mut i: usize = 0;
    while i <= hlen - nlen
        invariant
            1 <= nlen <= hlen,
            hlen == hay@.len(),
            nlen == needle@.len(),
            i <= hlen - nlen + 1,
            forall|k: int|
                0 <= k < i ==> #[trigger] hay@.subrange(k, k + needle@.len() as int) != needle@,
        decreases hlen - nlen + 1 - i,
    {
        proof {
            assert(hay@.subrange(i as int, i as int) =~= needle@.take(0));
        }
        let mut j: usize = 0;
        let mut matched: bool = true;
        while j < nlen && matched
            invariant
                nlen == needle@.len(),
                hlen == hay@.len(),
                i + nlen <= hlen,
                j <= nlen,
                matched == (hay@.subrange(i as int, i as int + j as int) == needle@.take(j as int)),
            decreases nlen - j,
        {
            let hc = hay.get_char(i + j);
            let nc = needle.get_char(j);
            if hc as u32 != nc as u32 {
                matched = false;
                proof {
                    assert(hay@.subrange(i as int, i as int + j as int + 1)[j as int] == hay@[i as int
                        + j as int]);
                    assert(needle@.take(j as int + 1)[j as int] == needle@[j as int]);
                }
            } else {
                proof {
                    if hc != nc {
                        lemma_char_cast_injective(hc, nc);
                    }
                    assert(hc == nc);
                    assert(hay@.subrange(i as int, i as int + j as int + 1) =~= hay@.subrange(
                        i as int,
                        i as int + j as int,
                    ).push(hay@[i as int + j as int]));
                    assert(needle@.take(j as int + 1) =~= needle@.take(j as int).push(
                        needle@[j as int],
                    ));
                }
            }
            j = j + 1;
        }
        proof {
            assert(needle@.take(needle@.len() as int) =~= needle@);
        }
        if matched {
            proof {
                assert(contains_seq(hay@, needle@)) by {
                    assert(0 <= i as int && i as int + needle@.len() <= hay@.len()
                        && hay@.subrange(i as int, i as int + needle@.len()) == needle@);
                }
            }
            return true;
        }
        proof {
            if hay@.subrange(i as int, i as int + needle@.len() as int) == needle@ {
                assert(hay@.subrange(i as int, i as int + j as int) =~= hay@.subrange(
                    i as int,
                    i as int + needle@.len() as int,
                ).subrange(0, j as int));
                assert(needle@.take(j as int) =~= needle@.subrange(0, j as int));
                assert(false);
            }
        }
        i = i + 1;
    }
    proof {
        if contains_seq(hay@, needle@) {
            let k = choose|k: int|
                0 <= k && k + needle@.len() <= hay@.len() && #[trigger] hay@.subrange(
                    k,
                    k + needle@.len(),
                ) == needle@;
            assert(k < i);
            assert(false);
        }
    }
    false
}

/// Insert `x` into `s` before the first element whose key is strictly
/// above `key(x)`; on a sorted sequence this preserves sortedness, and
/// elements with equal keys keep their arrival order.
pub open spec fn insert_by_key<T>(s: Seq<T>, x: T, key: spec_fn(T) -> Seq<char>) -> Seq<T>
    decreases s.len(),
{
    if s.len() == 0 {
        seq![x]
    } else if !lex_leq(key(s[0]), key(x)) {
        seq![x] + s
    } else {
        seq![s[0]] + insert_by_key(s.drop_first(), x, key)
    }
}

/// Deterministic insertion sort of `s` by `key`, one element at a time from
/// the left.
pub open spec fn sort_by_key<T>(s: Seq<T>, key: spec_fn(T) -> Seq<char>) -> Seq<T>
    decreases s.len(),
{
    if s.len() == 0 {
        Seq::empty()
    } else {
        insert_by_key(sort_by_key(s.drop_last(), key), s.last(), key)
    }
}

/// The sequence is ordered by `key` under `lex_leq`.
pub open spec fn sorted_by_key<T>(s: Seq<T>, key: spec_fn(T) -> Seq<char>) -> bool {
    forall|i: int, j: int| 0 <= i < j < s.len() ==> lex_leq(key(#[trigger] s[i]), key(#[trigger] s[j]))
}

/// Where `insert_by_key` puts the new element: at the first index whose key
/// is strictly above the key of `x`.
pub proof fn lemma_insert_by_key_at<T>(s: Seq<T>, x: T, key: spec_fn(T) -> Seq<char>, idx: int)
    requires
        0 <= idx <= s.len(),
        forall|j: int| 0 <= j < idx ==> lex_leq(key(#[trigger] s[j]), key(x)),
        idx < s.len() ==> !lex_leq(key(s[idx]), key(x)),
    ensures
        insert_by_key(s, x, key) == s.take(idx) + seq![x] + s.skip(idx),
    decreases idx,
{
    if idx == 0 {
        if s.len() == 0 {
            assert(insert_by_key(s, x, key) =~= s.take(0) + seq![x] + s.skip(0));
        } else {
            assert(!lex_leq(key(s[0]), key(x)));
            assert(insert_by_key(s, x, key) =~= s.take(0) + seq![x] + s.skip(0));
        }
    } else {
        assert(lex_leq(key(s[0]), key(x)));
        assert(forall|j: int|
            0 <= j < idx - 1 ==> s.drop_first()[j] == #[trigger] s[j + 1]);
        assert(idx - 1 < s.drop_first().len() ==> s.drop_first()[idx - 1] == s[idx]);
        lemma_insert_by_key_at(s.drop_first(), x, key, idx - 1);
        assert(seq![s[0]] + (s.drop_first().take(idx - 1) + seq![x] + s.drop_first().skip(idx - 1))
            =~= s.take(idx) + seq![x] + s.skip(idx));
    }
}

/// Inserting into a sorted sequence keeps it sorted and adds exactly the new
/// element to its contents.
pub proof fn lemma_insert_by_key_ensures<T>(s: Seq<T>, x: T, key: spec_fn(T) -> Seq<char>)
    requires
        sorted_by_key(s, key),
    ensures
        sorted_by_key(insert_by_key(s, x, key), key),
        insert_by_key(s, x, key).to_multiset() == s.to_multiset().insert(x),
        insert_by_key(s, x, key).len() == s.len() + 1,
    decreases s.len(),
{
    broadcast use vstd::seq_lib::group_to_multiset_ensures;

    let r = insert_by_key(s, x, key);
    if s.len() == 0 {
        assert(r =~= Seq::<T>::empty().push(x));
        assert(r.to_multiset() =~= s.to_multiset().insert(x));
    } else if !lex_leq(key(s[0]), key(x)) {
        lemma_lex_leq_total(key(s[0]), key(x));
        assert(lex_leq(key(x), key(s[0])));
        assert forall|i: int, j: int| 0 <= i < j < r.len() implies lex_leq(
            key(r[i]),
            key(r[j]),
        ) by {
            if i == 0 {
                if j == 1 {
                } else {
                    lemma_lex_leq_transitive(key(x), key(s[0]), key(s[j - 1]));
                }
            }
        }
        lemma_to_multiset_of_cons(s, x);
    } else {
        let t = insert_by_key(s.drop_first(), x, key);
        assert(sorted_by_key(s.drop_first(), key)) by {
            assert(forall|i: int|
                0 <= i < s.drop_first().len() ==> s.drop_first()[i] == #[trigger] s[i + 1]);
        }
        lemma_insert_by_key_ensures(s.drop_first(), x, key);
        assert(lex_leq(key(s[0]), key(x)));
        assert forall|i: int, j: int| 0 <= i < j < r.len() implies lex_leq(
            key(r[i]),
            key(r[j]),
        ) by {
            if i == 0 {
                assert(r[j] == t[j - 1]);
                // every element of t is either x or an element of s
                assert(t.to_multiset().contains(t[j - 1]));
                if t[j - 1] == x {
                } else {
                    assert(s.drop_first().to_multiset().contains(t[j - 1]));
                    assert(s.drop_first().contains(t[j - 1]));
                    let k = choose|k: int|
                        0 <= k < s.drop_first().len() && s.drop_first()[k] == t[j - 1];
                    assert(s[k + 1] == t[j - 1]);
                    assert(lex_leq(key(s[0]), key(s[k + 1])));
                }
            } else {
                assert(r[i] == t[i - 1] && r[j] == t[j - 1]);
            }
        }
        assert(r.to_multiset() =~= s.to_multiset().insert(x)) by {
            lemma_to_multiset_of_cons(s, x);
            lemma_to_multiset_of_cons_general(s.drop_first(), t, s[0]);
            assert(s =~= seq![s[0]] + s.drop_first());
        }
    }
}

/// `to_multiset` of a cons cell: the head joins the contents of the tail.
proof fn lemma_to_multiset_of_cons_general<T>(tail: Seq<T>, tail2: Seq<T>, h: T)
    ensures
        (seq![h] + tail).to_multiset() == tail.to_multiset().insert(h),
        (seq![h] + tail2).to_multiset() == tail2.to_multiset().insert(h),
{
    vstd::seq_lib::lemma_multiset_commutative(seq![h], tail);
    vstd::seq_lib::lemma_multiset_commutative(seq![h], tail2);
    assert(seq![h].to_multiset() =~= Multiset::<T>::empty().insert(h)) by {
        broadcast use vstd::seq_lib::group_to_multiset_ensures;

        assert(seq![h] =~= Seq::<T>::empty().push(h));
    }
    assert((seq![h] + tail).to_multiset() =~= tail.to_multiset().insert(h));
    assert((seq![h] + tail2).to_multiset() =~= tail2.to_multiset().insert(h));
}

proof fn lemma_to_multiset_of_cons<T>(s: Seq<T>, x: T)
    requires
        s.len() > 0,
    ensures
        (seq![x] + s).to_multiset() == s.to_multiset().insert(x),
        s.to_multiset() == s.drop_first().to_multiset().insert(s[0]),
{
    lemma_to_multiset_of_cons_general(s, s, x);
    lemma_to_multiset_of_cons_general(s.drop_first(), s.drop_first(), s[0]);
    assert(s =~= seq![s[0]] + s.drop_first());
}

/// The sort is a sorted permutation of its input.
pub proof fn lemma_sort_by_key_ensures<T>(s: Seq<T>, key: spec_fn(T) -> Seq<char>)
    ensures
        sorted_by_key(sort_by_key(s, key), key),
        sort_by_key(s, key).to_multiset() == s.to_multiset(),
        sort_by_key(s, key).len() == s.len(),
    decreases s.len(),
{
    broadcast use vstd::seq_lib::group_to_multiset_ensures;

    if s.len() == 0 {
        assert(sort_by_key(s, key).to_multiset() =~= s.to_multiset());
    } else {
        lemma_sort_by_key_ensures(s.drop_last(), key);
        lemma_insert_by_key_ensures(sort_by_key(s.drop_last(), key), s.last(), key);
        assert(s =~= s.drop_last().push(s.last()));
        assert(s.drop_last().push(s.last()).to_multiset() == s.drop_last().to_multiset().insert(
            s.last(),
        ));
    }
}

/// Sorting an already sorted sequence changes nothing.
pub proof fn lemma_sort_by_key_idempotent<T>(s: Seq<T>, key: spec_fn(T) -> Seq<char>)
    requires
        sorted_by_key(s, key),
    ensures
        sort_by_key(s, key) == s,
    decreases s.len(),
{
    if s.len() > 0 {
        assert(sorted_by_key(s.drop_last(), key)) by {
            assert(forall|i: int|
                0 <= i < s.drop_last().len() ==> s.drop_last()[i] == #[trigger] s[i]);
        }
        lemma_sort_by_key_idempotent(s.drop_last(), key);
        assert forall|j: int| 0 <= j < s.drop_last().len() implies lex_leq(
            key(#[trigger] s.drop_last()[j]),
            key(s.last()),
        ) by {
            assert(s.drop_last()[j] == s[j]);
        }
        lemma_insert_by_key_at(s.drop_last(), s.last(), key, s.len() - 1);
        assert(s.drop_last().take(s.len() - 1) + seq![s.last()] + s.drop_last().skip(s.len() - 1)
            =~= s);
    } else {
        assert(sort_by_key(s, key) =~= s);
    }
}

/// Two sorted sequences with the same contents are the same sequence,
/// provided no two distinct elements share a key.
pub proof fn lemma_sorted_unique<T>(s1: Seq<T>, s2: Seq<T>, key: spec_fn(T) -> Seq<char>)
    requires
        sorted_by_key(s1, key),
        sorted_by_key(s2, key),
        s1.to_multiset() == s2.to_multiset(),
        forall|a: T, b: T|
            s1.to_multiset().contains(a) && s1.to_multiset().contains(b) && key(a) == key(b)
                ==> a == b,
    ensures
        s1 == s2,
    decreases s1.len(),
{
    broadcast use vstd::seq_lib::group_to_multiset_ensures;

    if s1.len() == 0 {
        assert(s2.to_multiset().len() == 0);
        assert(s1 =~= s2);
    } else {
        assert(s1.to_multiset().len() == s1.len());
        assert(s2.to_multiset().len() == s2.len());
        assert(s2.len() == s1.len());
        assert(s1.to_multiset().contains(s1[0]));
        assert(s2.to_multiset().contains(s2[0]));
        assert(s1.contains(s2[0]));
        assert(s2.contains(s1[0]));
        let i1 = choose|i: int| 0 <= i < s1.len() && s1[i] == s2[0];
        let i2 = choose|i: int| 0 <= i < s2.len() && s2[i] == s1[0];
        assert(i1 == 0 || lex_leq(key(s1[0]), key(s1[i1])));
        assert(i2 == 0 || lex_leq(key(s2[0]), key(s2[i2])));
        assert(lex_leq(key(s1[0]), key(s2[0])) || s1[0] == s2[0]);
        assert(lex_leq(key(s2[0]), key(s1[0])) || s1[0] == s2[0]);
        if s1[0] != s2[0] {
            lemma_lex_leq_antisymmetric(key(s1[0]), key(s2[0]));
            assert(false);
        }
        assert(s1[0] == s2[0]);
        lemma_to_multiset_of_cons(s1, s1[0]);
        lemma_to_multiset_of_cons(s2, s2[0]);
        assert(s1.drop_first().to_multiset() =~= s2.drop_first().to_multiset()) by {
            assert(s1.drop_first().to_multiset().insert(s1[0]) == s2.drop_first().to_multiset()
                .insert(s2[0]));
            assert forall|a: T| true implies s1.drop_first().to_multiset().count(a)
                == s2.drop_first().to_multiset().count(a) by {
                assert(s1.drop_first().to_multiset().insert(s1[0]).count(a) == s2.drop_first()
                    .to_multiset().insert(s2[0]).count(a));
            }
        }
        assert(sorted_by_key(s1.drop_first(), key)) by {
            assert(forall|i: int|
                0 <= i < s1.drop_first().len() ==> s1.drop_first()[i] == #[trigger] s1[i + 1]);
        }
        assert(sorted_by_key(s2.drop_first(), key)) by {
            assert(forall|i: int|
                0 <= i < s2.drop_first().len() ==> s2.drop_first()[i] == #[trigger] s2[i + 1]);
        }
        assert forall|a: T, b: T|
            s1.drop_first().to_multiset().contains(a) && s1.drop_first().to_multiset().contains(b)
                && key(a) == key(b) implies a == b by {
            assert(s1.to_multiset() == s1.drop_first().to_multiset().insert(s1[0]));
            assert(s1.to_multiset().count(a) >= s1.drop_first().to_multiset().count(a));
            assert(s1.to_multiset().count(b) >= s1.drop_first().to_multiset().count(b));
            assert(s1.to_multiset().contains(a) && s1.to_multiset().contains(b));
        }
        lemma_sorted_unique(s1.drop_first(), s2.drop_first(), key);
        assert(s1 =~= seq![s1[0]] + s1.drop_first());
        assert(s2 =~= seq![s2[0]] + s2.drop_first());
    }
}

/// The views of a sequence of strings.
pub open spec fn seq_views(s: Seq<String>) -> Seq<Seq<char>> {
    s.map_values(|x: String| x@)
}

/// The identity key, for sorting plain strings.
pub open spec fn str_key() -> spec_fn(Seq<char>) -> Seq<char> {
    |s: Seq<char>| s
}

/// Sort strings into lexicographic order, deterministically.
pub fn sort_strings(v: &[String]) -> (r: Vec<String>)
    ensures
        seq_views(r@) == sort_by_key(seq_views(v@), str_key()),
{
    let mut out: Vec<String> = Vec::new();
    let mut i: usize = 0;
    proof {
        assert(seq_views(v@.take(0)) =~= Seq::<Seq<char>>::empty());
        assert(seq_views(out@) =~= sort_by_key(seq_views(v@.take(0)), str_key()));
    }
    while i < v.len()
        invariant
            i <= v@.len(),
            seq_views(out@) == sort_by_key(seq_views(v@.take(i as int)), str_key()),
        decreases v@.len() - i,
    {
        let x = v[i].clone();
        assert(x@ == v@[i as int]@);
        let mut idx: usize = 0;
        while idx < out.len() && str_leq(out[idx].as_str(), &x)
            invariant
                idx <= out@.len(),
                x@ == v@[i as int]@,
                forall|j: int| 0 <= j < idx ==> lex_leq(#[trigger] out@[j]@, x@),
            decreases out@.len() - idx,
        {
            idx = idx + 1;
        }
        let ghost old_out = out@;
        out.insert(idx, x);
        proof {
            lemma_insert_by_key_at(seq_views(old_out), v@[i as int]@, str_key(), idx as int);
            assert(seq_views(out@) =~= seq_views(old_out).take(idx as int) + seq![v@[i as int]@]
                + seq_views(old_out).skip(idx as int));
            assert(seq_views(out@) =~= insert_by_key(
                seq_views(old_out),
                v@[i as int]@,
                str_key(),
            ));
            assert(seq_views(v@.take(i as int + 1)).drop_last() =~= seq_views(v@.take(i as int)));
            assert(seq_views(v@.take(i as int + 1)).last() == v@[i as int]@);
            assert(seq_views(out@) =~= sort_by_key(seq_views(v@.take(i as int + 1)), str_key()));
        }
        i = i + 1;
    }
    proof {
        assert(v@.take(v@.len() as int) =~= v@);
    }
    out
}

/// The views of a sequence of string pairs.
pub open spec fn pair_views(s: Seq<(String, String)>) -> Seq<(Seq<char>, Seq<char>)> {
    s.map_values(|x: (String, String)| (x.0@, x.1@))
}

/// The views of a sequence of string-to-ordinal pairs.
pub open spec fn pair_views_us(s: Seq<(String, usize)>) -> Seq<(Seq<char>, usize)> {
    s.map_values(|x: (String, usize)| (x.0@, x.1))
}

/// The first component, as sort key for string pairs.
pub open spec fn fst_key() -> spec_fn((Seq<char>, Seq<char>)) -> Seq<char> {
    |p: (Seq<char>, Seq<char>)| p.0
}

/// Sort string pairs by their first component, deterministically.
pub fn sort_pairs(v: &Vec<(String, String)>) -> (r: Vec<(String, String)>)
    ensures
        pair_views(r@) == sort_by_key(pair_views(v@), fst_key()),
{
    let mut out: Vec<(String, String)> = Vec::new();
    let mut i: usize = 0;
    proof {
        assert(pair_views(v@.take(0)) =~= Seq::<(Seq<char>, Seq<char>)>::empty());
        assert(pair_views(out@) =~= sort_by_key(pair_views(v@.take(0)), fst_key()));
    }
    while i < v.len()
        invariant
            i <= v@.len(),
            pair_views(out@) == sort_by_key(pair_views(v@.take(i as int)), fst_key()),
        decreases v@.len() - i,
    {
        let x = (v[i].0.clone(), v[i].1.clone());
        assert(x.0@ == v@[i as int].0@ && x.1@ == v@[i as int].1@);
        let mut idx: usize = 0;
        while idx < out.len() && str_leq(out[idx].0.as_str(), x.0.as_str())
            invariant
                idx <= out@.len(),
                x.0@ == v@[i as int].0@,
                forall|j: int| 0 <= j < idx ==> lex_leq(#[trigger] out@[j].0@, x.0@),
            decreases out@.len() - idx,
        {
            idx = idx + 1;
        }
        let ghost old_out = out@;
        out.insert(idx, x);
        proof {
            let ghost xv = (v@[i as int].0@, v@[i as int].1@);
            lemma_insert_by_key_at(pair_views(old_out), xv, fst_key(), idx as int);
            assert(pair_views(out@) =~= pair_views(old_out).take(idx as int) + seq![xv]
                + pair_views(old_out).skip(idx as int));
            assert(pair_views(out@) =~= insert_by_key(pair_views(old_out), xv, fst_key()));
            assert(pair_views(v@.take(i as int + 1)).drop_last() =~= pair_views(v@.take(i as int)));
            assert(pair_views(v@.take(i as int + 1)).last() == xv);
            assert(pair_views(out@) =~= sort_by_key(pair_views(v@.take(i as int + 1)), fst_key()));
        }
        i = i + 1;
    }
    proof {
        assert(v@.take(v@.len() as int) =~= v@);
    }
    out
}

} // verus!
