//! The build-script parser: a line-oriented script is turned into a list of
//! instructions. Blank lines and `#` comments are ignored; the first token
//! of a line selects the instruction, case-insensitively.

use vstd::prelude::*;

verus! {

/// One parsed instruction of the build script.
pub enum Instruction {
    From(String),
    Workdir(String),
    Copy(String, String),
    Run(String),
    Env(String, String),
    Cmd(String),
    Git(String, String),
    RunExtend(String, bool),
    CopyExtend(String, String, Vec<String>),
    Hook(String, Vec<String>),
    Other(String),
}

/// Whitespace for the purposes of the script: space, tab, carriage return
/// and newline.
pub open spec fn is_space(c: char) -> bool {
    c == ' ' || c == '\t' || c == '\r' || c == '\n'
}

/// The first index holding a newline, or the length when there is none.
pub open spec fn find_nl(s: Seq<char>) -> nat
    decreases s.len(),
{
    if s.len() == 0 {
        0
    } else if s[0] == '\n' {
        0
    } else {
        1 + find_nl(s.drop_first())
    }
}

pub proof fn lemma_find_nl_le(s: Seq<char>)
    ensures
        find_nl(s) <= s.len(),
        find_nl(s) < s.len() ==> s[find_nl(s) as int] == '\n',
        forall|m: int| 0 <= m < find_nl(s) ==> s[m] != '\n',
    decreases s.len(),
{
    if s.len() > 0 && s[0] != '\n' {
        lemma_find_nl_le(s.drop_first());
        assert(forall|m: int|
            1 <= m < find_nl(s) ==> s[m] == s.drop_first()[m - 1]);
    }
}

/// The text split at newlines: `n` separators make `n + 1` lines.
pub open spec fn lines_of(s: Seq<char>) -> Seq<Seq<char>>
    decreases s.len(),
    via lines_of_decreases
{
    if find_nl(s) == s.len() {
        seq![s]
    } else {
        seq![s.take(find_nl(s) as int)] + lines_of(s.skip(find_nl(s) as int + 1))
    }
}

#[via_fn]
proof fn lines_of_decreases(s: Seq<char>) {
    lemma_find_nl_le(s);
}

/// The text with leading whitespace removed.
pub open spec fn trim_front(s: Seq<char>) -> Seq<char>
    decreases s.len(),
{
    if s.len() > 0 && is_space(s[0]) {
        trim_front(s.drop_first())
    } else {
        s
    }
}

/// The text with trailing whitespace removed.
pub open spec fn trim_back(s: Seq<char>) -> Seq<char>
    decreases s.len(),
{
    if s.len() > 0 && is_space(s.last()) {
        trim_back(s.drop_last())
    } else {
        s
    }
}

/// The text with surrounding whitespace removed.
pub open spec fn trim(s: Seq<char>) -> Seq<char> {
    trim_back(trim_front(s))
}

/// The length of the leading run of non-whitespace characters.
pub open spec fn token_len(s: Seq<char>) -> nat
    decreases s.len(),
{
    if s.len() == 0 || is_space(s[0]) {
        0
    } else {
        1 + token_len(s.drop_first())
    }
}

pub proof fn lemma_token_len_le(s: Seq<char>)
    ensures
        token_len(s) <= s.len(),
        forall|m: int| 0 <= m < token_len(s) ==> !is_space(s[m]),
        token_len(s) < s.len() ==> is_space(s[token_len(s) as int]),
    decreases s.len(),
{
    if s.len() > 0 && !is_space(s[0]) {
        lemma_token_len_le(s.drop_first());
        assert(forall|m: int|
            1 <= m < token_len(s) ==> s[m] == s.drop_first()[m - 1]);
    }
}

/// The whitespace-separated tokens of the text, in order.
pub open spec fn tokens_of(s: Seq<char>) -> Seq<Seq<char>>
    decreases s.len(),
    via tokens_of_decreases
{
    if s.len() == 0 {
        Seq::empty()
    } else if is_space(s[0]) {
        tokens_of(s.drop_first())
    } else {
        seq![s.take(token_len(s) as int)] + tokens_of(s.skip(token_len(s) as int))
    }
}

#[via_fn]
proof fn tokens_of_decreases(s: Seq<char>) {
    lemma_token_len_le(s);
}

/// The ASCII-uppercase scalar of a character.
pub open spec fn upper_u32(c: char) -> u32 {
    if 97 <= c as u32 <= 122 {
        (c as u32 - 32) as u32
    } else {
        c as u32
    }
}

/// Does the token match the (uppercase) keyword, ASCII-case-insensitively?
pub open spec fn kw_matches(tok: Seq<char>, kw: Seq<char>) -> bool {
    tok.len() == kw.len() && forall|i: int|
        0 <= i < tok.len() ==> upper_u32(#[trigger] tok[i]) == kw[i] as u32
}

/// The first index holding `=` or a space, or the length when there is
/// none: where an `ENV` binding splits into key and value.
pub open spec fn find_env_sep(s: Seq<char>) -> nat
    decreases s.len(),
{
    if s.len() == 0 {
        0
    } else if s[0] == '=' || s[0] == ' ' {
        0
    } else {
        1 + find_env_sep(s.drop_first())
    }
}

pub proof fn lemma_find_env_sep_le(s: Seq<char>)
    ensures
        find_env_sep(s) <= s.len(),
        find_env_sep(s) < s.len() ==> (s[find_env_sep(s) as int] == '='
            || s[find_env_sep(s) as int] == ' '),
        forall|m: int| 0 <= m < find_env_sep(s) ==> (s[m] != '=' && s[m] != ' '),
    decreases s.len(),
{
    if s.len() > 0 && s[0] != '=' && s[0] != ' ' {
        lemma_find_env_sep_le(s.drop_first());
        assert(forall|m: int|
            1 <= m < find_env_sep(s) ==> s[m] == s.drop_first()[m - 1]);
    }
}

/// The argument text of a (trimmed) line: everything after the first token,
/// trimmed again.
pub open spec fn args_of(l: Seq<char>) -> Seq<char> {
    trim(l.skip(token_len(l) as int))
}

/// Does the (trimmed) line yield an instruction? Blank lines, comments and
/// recognized keywords with too few arguments yield none.
pub open spec fn line_keeps(l: Seq<char>) -> bool {
    &&& l.len() > 0
    &&& l[0] != '#'
    &&& {
        let t = tokens_of(l);
        if kw_matches(t[0], "FROM"@) {
            t.len() >= 2
        } else if kw_matches(t[0], "WORKDIR"@) {
            t.len() >= 2
        } else if kw_matches(t[0], "COPY"@) {
            t.len() >= 3
        } else if kw_matches(t[0], "RUN"@) {
            true
        } else if kw_matches(t[0], "ENV"@) {
            find_env_sep(args_of(l)) < args_of(l).len()
        } else if kw_matches(t[0], "CMD"@) {
            true
        } else if kw_matches(t[0], "GIT"@) {
            t.len() >= 2
        } else if kw_matches(t[0], "RUN_EXTEND"@) {
            true
        } else if kw_matches(t[0], "COPY_EXTEND"@) {
            t.len() >= 3
        } else if kw_matches(t[0], "HOOK"@) {
            t.len() >= 2
        } else {
            true
        }
    }
}

/// What instruction a kept (trimmed) line parses to.
pub open spec fn line_matches(l: Seq<char>, ins: Instruction) -> bool {
    let t = tokens_of(l);
    let args = args_of(l);
    if kw_matches(t[0], "FROM"@) {
        ins matches Instruction::From(img) && img@ == t[1]
    } else if kw_matches(t[0], "WORKDIR"@) {
        ins matches Instruction::Workdir(d) && d@ == t[1]
    } else if kw_matches(t[0], "COPY"@) {
        ins matches Instruction::Copy(src, dst) && src@ == t[1] && dst@ == t[2]
    } else if kw_matches(t[0], "RUN"@) {
        ins matches Instruction::Run(c) && c@ == args
    } else if kw_matches(t[0], "ENV"@) {
        ins matches Instruction::Env(k, v) && k@ == args.take(find_env_sep(args) as int) && v@
            == args.skip(find_env_sep(args) as int + 1)
    } else if kw_matches(t[0], "CMD"@) {
        ins matches Instruction::Cmd(c) && c@ == args
    } else if kw_matches(t[0], "GIT"@) {
        ins matches Instruction::Git(url, target) && url@ == t[1] && (if t.len() >= 3 {
            target@ == t[2]
        } else {
            target@ == "."@
        })
    } else if kw_matches(t[0], "RUN_EXTEND"@) {
        ins matches Instruction::RunExtend(c, par) && c@ == args && par == true
    } else if kw_matches(t[0], "COPY_EXTEND"@) {
        ins matches Instruction::CopyExtend(src, dst, tags) && src@ == t[1] && dst@ == t[2]
            && crate::strutil::seq_views(tags@) == t.skip(3)
    } else if kw_matches(t[0], "HOOK"@) {
        ins matches Instruction::Hook(name, params) && name@ == t[1]
            && crate::strutil::seq_views(params@) == t.skip(2)
    } else {
        ins matches Instruction::Other(x) && x@ == l
    }
}

/// The trimmed lines that yield instructions, in order.
pub open spec fn kept_of(lines: Seq<Seq<char>>) -> Seq<Seq<char>>
    decreases lines.len(),
{
    if lines.len() == 0 {
        Seq::empty()
    } else {
        let rest = kept_of(lines.drop_first());
        if line_keeps(trim(lines[0])) {
            seq![trim(lines[0])] + rest
        } else {
            rest
        }
    }
}

/// The kept lines of the whole script.
pub open spec fn kept_lines(content: Seq<char>) -> Seq<Seq<char>> {
    kept_of(lines_of(content))
}

proof fn lemma_kept_of_concat(a: Seq<Seq<char>>, b: Seq<Seq<char>>)
    ensures
        kept_of(a + b) == kept_of(a) + kept_of(b),
    decreases a.len(),
{
    if a.len() == 0 {
        assert(a + b =~= b);
        assert(kept_of(a) =~= Seq::<Seq<char>>::empty());
        assert(kept_of(a + b) =~= kept_of(a) + kept_of(b));
    } else {
        assert((a + b)[0] == a[0]);
        assert((a + b).drop_first() =~= a.drop_first() + b);
        lemma_kept_of_concat(a.drop_first(), b);
        assert(kept_of(a + b) =~= kept_of(a) + kept_of(b));
    }
}

proof fn lemma_trim_front_at(s: Seq<char>, a: int)
    requires
        0 <= a <= s.len(),
        forall|m: int| 0 <= m < a ==> is_space(s[m]),
        a < s.len() ==> !is_space(s[a]),
    ensures
        trim_front(s) == s.skip(a),
    decreases a,
{
    if a == 0 {
        assert(s.skip(0) =~= s);
    } else {
        assert(is_space(s[0]));
        assert(forall|m: int| 0 <= m < a - 1 ==> s.drop_first()[m] == s[m + 1]);
        assert(a - 1 < s.drop_first().len() ==> s.drop_first()[a - 1] == s[a]);
        lemma_trim_front_at(s.drop_first(), a - 1);
        assert(s.drop_first().skip(a - 1) =~= s.skip(a));
    }
}

proof fn lemma_trim_back_at(s: Seq<char>, b: int)
    requires
        0 <= b <= s.len(),
        forall|m: int| b <= m < s.len() ==> is_space(s[m]),
        b > 0 ==> !is_space(s[b - 1]),
    ensures
        trim_back(s) == s.take(b),
    decreases s.len() - b,
{
    if b == s.len() {
        if s.len() > 0 && is_space(s.last()) {
            assert(false);
        }
        assert(s.take(b) =~= s);
    } else {
        assert(is_space(s.last()));
        assert(forall|m: int| b <= m < s.drop_last().len() ==> s.drop_last()[m] == s[m]);
        lemma_trim_back_at(s.drop_last(), b);
        assert(s.drop_last().take(b) =~= s.take(b));
    }
}

/// Remove surrounding whitespace.
pub fn trim_str(s: &str) -> (r: String)
    ensures
        r@ == trim(s@),
{
    let n = s.unicode_len();
    let mut a: usize = 0;
    while a < n && is_space_char(s.get_char(a))
        invariant
            a <= n,
            n == s@.len(),
            forall|m: int| 0 <= m < a ==> is_space(s@[m]),
        decreases n - a,
    {
        a = a + 1;
    }
    let mut b: usize = n;
    while b > a && is_space_char(s.get_char(b - 1))
        invariant
            a <= b <= n,
            n == s@.len(),
            forall|m: int| 0 <= m < a ==> is_space(s@[m]),
            a < n ==> !is_space(s@[a as int]),
            forall|m: int| b <= m < n ==> is_space(s@[m]),
        decreases b,
    {
        b = b - 1;
    }
    proof {
        lemma_trim_front_at(s@, a as int);
        let f = s@.skip(a as int);
        assert(forall|m: int| b - a <= m < f.len() ==> f[m] == s@[m + a]);
        assert(b - a > 0 ==> f[b - a - 1] == s@[b as int - 1]);
        if b > a {
            assert(!is_space(s@[b as int - 1]));
        }
        lemma_trim_back_at(f, b as int - a as int);
        assert(f.take(b as int - a as int) =~= s@.subrange(a as int, b as int));
    }
    let piece = s.substring_char(a, b);
    piece.to_owned()
}

fn is_space_char(c: char) -> (r: bool)
    ensures
        r == is_space(c),
{
    c == ' ' || c == '\t' || c == '\r' || c == '\n'
}

proof fn lemma_token_len_at(s: Seq<char>, k: int)
    requires
        0 <= k <= s.len(),
        forall|m: int| 0 <= m < k ==> !is_space(s[m]),
        k < s.len() ==> is_space(s[k]),
    ensures
        token_len(s) == k,
    decreases k,
{
    if k == 0 {
    } else {
        assert(!is_space(s[0]));
        assert(forall|m: int| 0 <= m < k - 1 ==> s.drop_first()[m] == s[m + 1]);
        assert(k - 1 < s.drop_first().len() ==> s.drop_first()[k - 1] == s[k]);
        lemma_token_len_at(s.drop_first(), k - 1);
    }
}

/// Split the text into its whitespace-separated tokens.
pub fn tokenize(s: &str) -> (r: Vec<String>)
    ensures
        crate::strutil::seq_views(r@) == tokens_of(s@),
{
    let n = s.unicode_len();
    let mut out: Vec<String> = Vec::new();
    let mut i: usize = 0;
    proof {
        assert(s@.skip(0) =~= s@);
        assert(crate::strutil::seq_views(out@) =~= Seq::<Seq<char>>::empty());
    }
    while i < n
        invariant
            i <= n,
            n == s@.len(),
            tokens_of(s@) == crate::strutil::seq_views(out@) + tokens_of(s@.skip(i as int)),
        decreases n - i,
    {
        if is_space_char(s.get_char(i)) {
            proof {
                assert(s@.skip(i as int)[0] == s@[i as int]);
                assert(s@.skip(i as int).drop_first() =~= s@.skip(i as int + 1));
            }
            i = i + 1;
        } else {
            let mut j: usize = i + 1;
            while j < n && !is_space_char(s.get_char(j))
                invariant
                    i < j <= n,
                    n == s@.len(),
                    forall|m: int| i <= m < j ==> !is_space(s@[m]),
                decreases n - j,
            {
                j = j + 1;
            }
            let tok = s.substring_char(i, j).to_owned();
            let ghost old_out = out@;
            out.push(tok);
            proof {
                let suf = s@.skip(i as int);
                assert(forall|m: int| 0 <= m < j - i ==> suf[m] == s@[m + i]);
                assert(j < n ==> suf[j - i] == s@[j as int]);
                lemma_token_len_at(suf, j - i);
                assert(!is_space(suf[0]));
                assert(suf.take(j - i) =~= s@.subrange(i as int, j as int));
                assert(suf.skip(j - i) =~= s@.skip(j as int));
                assert(tokens_of(suf) == seq![s@.subrange(i as int, j as int)] + tokens_of(
                    s@.skip(j as int),
                ));
                assert(crate::strutil::seq_views(out@) =~= crate::strutil::seq_views(old_out).push(
                    s@.subrange(i as int, j as int),
                ));
                assert(crate::strutil::seq_views(out@) + tokens_of(s@.skip(j as int))
                    =~= crate::strutil::seq_views(old_out) + tokens_of(suf));
            }
            i = j;
        }
    }
    proof {
        assert(s@.skip(n as int).len() == 0);
        assert(tokens_of(s@.skip(n as int)) =~= Seq::<Seq<char>>::empty());
        assert(crate::strutil::seq_views(out@) =~= tokens_of(s@));
    }
    out
}

/// Does the token match the (uppercase, ASCII) keyword, case-insensitively?
pub fn kw_match(tok: &str, kw: &str) -> (r: bool)
    ensures
        r == kw_matches(tok@, kw@),
{
    let tn = tok.unicode_len();
    let kn = kw.unicode_len();
    if tn != kn {
        return false;
    }
    let mut i: usize = 0;
    while i < tn
        invariant
            i <= tn,
            tn == tok@.len(),
            tn == kw@.len(),
            forall|m: int| 0 <= m < i ==> upper_u32(#[trigger] tok@[m]) == kw@[m] as u32,
        decreases tn - i,
    {
        let tc = tok.get_char(i) as u32;
        let kc = kw.get_char(i) as u32;
        let up = if 97 <= tc && tc <= 122 {
            tc - 32
        } else {
            tc
        };
        if up != kc {
            return false;
        }
        i = i + 1;
    }
    true
}

pub proof fn lemma_find_nl_at(s: Seq<char>, k: int)
    requires
        0 <= k <= s.len(),
        forall|m: int| 0 <= m < k ==> s[m] != '\n',
        k < s.len() ==> s[k] == '\n',
    ensures
        find_nl(s) == k,
    decreases k,
{
    if k == 0 {
    } else {
        assert(s[0] != '\n');
        assert(forall|m: int| 0 <= m < k - 1 ==> s.drop_first()[m] == s[m + 1]);
        assert(k - 1 < s.drop_first().len() ==> s.drop_first()[k - 1] == s[k]);
        lemma_find_nl_at(s.drop_first(), k - 1);
    }
}

proof fn lemma_tokens_nonempty(s: Seq<char>)
    requires
        s.len() > 0,
        !is_space(s[0]),
    ensures
        tokens_of(s).len() >= 1,
        tokens_of(s)[0] == s.take(token_len(s) as int),
{
}

/// A trimmed text neither starts nor ends with whitespace.
pub proof fn lemma_trim_is_trimmed(s: Seq<char>)
    ensures
        trim(s).len() > 0 ==> !is_space(trim(s)[0]),
        trim(s).len() > 0 ==> !is_space(trim(s).last()),
{
    lemma_trim_front_not_space(s);
    lemma_trim_back_props(trim_front(s));
}

proof fn lemma_trim_front_not_space(s: Seq<char>)
    ensures
        trim_front(s).len() > 0 ==> !is_space(trim_front(s)[0]),
    decreases s.len(),
{
    if s.len() > 0 && is_space(s[0]) {
        lemma_trim_front_not_space(s.drop_first());
    }
}

proof fn lemma_trim_back_props(s: Seq<char>)
    ensures
        trim_back(s).len() > 0 ==> !is_space(trim_back(s).last()),
        trim_back(s).len() > 0 ==> trim_back(s)[0] == s[0],
        s.len() > 0 && !is_space(s[0]) ==> trim_back(s).len() > 0 || s.len() == 0,
        trim_back(s).len() <= s.len(),
        forall|m: int| 0 <= m < trim_back(s).len() ==> trim_back(s)[m] == s[m],
    decreases s.len(),
{
    if s.len() > 0 && is_space(s.last()) {
        lemma_trim_back_props(s.drop_last());
        assert(forall|m: int| 0 <= m < s.drop_last().len() ==> s.drop_last()[m] == s[m]);
    }
}

/// Parse a build script into its instructions, line by line. Blank lines
/// and `#` comments are ignored; a recognized keyword with too few
/// arguments is dropped; an unknown keyword keeps the whole line as an
/// `Other` instruction.
#[verifier::rlimit(60)]
pub fn parse_dockerfile(content: &str) -> (r: Vec<Instruction>)
    ensures
        r@.len() == kept_lines(content@).len(),
        forall|i: int|
            0 <= i < r@.len() ==> line_matches(kept_lines(content@)[i], #[trigger] r@[i]),
{
    let n = content.unicode_len();
    let mut out: Vec<Instruction> = Vec::new();
    let mut pos: usize = 0;
    let mut done = false;
    let ghost all_lines = lines_of(content@);
    let ghost processed: Seq<Seq<char>> = Seq::empty();
    let mut processed_v: Ghost<Seq<Seq<char>>> = Ghost(processed);
    proof {
        assert(content@.skip(0) =~= content@);
        assert(Seq::<Seq<char>>::empty() + lines_of(content@) =~= lines_of(content@));
        assert(kept_of(Seq::<Seq<char>>::empty()) =~= Seq::<Seq<char>>::empty());
    }
    while !done
        invariant
            pos <= n,
            n == content@.len(),
            all_lines == lines_of(content@),
            all_lines == (if done {
                processed_v@
            } else {
                processed_v@ + lines_of(content@.skip(pos as int))
            }),
            out@.len() == kept_of(processed_v@).len(),
            forall|i: int|
                0 <= i < out@.len() ==> line_matches(
                    kept_of(processed_v@)[i],
                    #[trigger] out@[i],
                ),
        decreases n - pos + (if done { 0int } else { 1int }),
    {
        let mut k: usize = pos;
        while k < n && content.get_char(k) != '\n'
            invariant
                pos <= k <= n,
                n == content@.len(),
                forall|m: int| pos <= m < k ==> content@[m] != '\n',
            decreases n - k,
        {
            k = k + 1;
        }
        let ghost rest = content@.skip(pos as int);
        let ghost seg = content@.subrange(pos as int, k as int);
        proof {
            assert(forall|m: int| 0 <= m < k - pos ==> rest[m] == content@[m + pos]);
            assert(k < n ==> rest[k - pos] == content@[k as int]);
            lemma_find_nl_at(rest, k as int - pos as int);
            assert(rest.take(k as int - pos as int) =~= seg);
            if k < n {
                assert(rest.skip(k as int - pos as int + 1) =~= content@.skip(k as int + 1));
                assert(lines_of(rest) == seq![seg] + lines_of(content@.skip(k as int + 1)));
            } else {
                assert(rest.take(rest.len() as int) =~= rest);
                assert(seg =~= rest);
                assert(lines_of(rest) == seq![seg]);
            }
        }
        let line_raw = content.substring_char(pos, k);
        let t = trim_str(line_raw);
        let ghost tl = trim(seg);
        proof {
            assert(t@ == tl);
        }
        let tn = t.unicode_len();
        let mut kept = false;
        if tn > 0 {
            let first = t.get_char(0);
            if first != '#' {
                proof {
                    lemma_trim_is_trimmed(seg);
                    lemma_tokens_nonempty(tl);
                }
                let toks = tokenize(t.as_str());
                let ghost tsq = tokens_of(tl);
                proof {
                    assert(crate::strutil::seq_views(toks@) == tsq);
                    assert(toks@.len() >= 1);
                    assert(toks@[0]@ == tsq[0]);
                    assert(tsq[0] == tl.take(token_len(tl) as int));
                    lemma_token_len_le(tl);
                }
                let tok0_len = toks[0].unicode_len();
                proof {
                    assert(tok0_len == token_len(tl));
                }
                let after = t.substring_char(tok0_len, tn);
                let args = trim_str(after);
                proof {
                    assert(after@ == tl.skip(token_len(tl) as int));
                    assert(args@ == args_of(tl));
                }
                if kw_match(toks[0].as_str(), "FROM") {
                    if toks.len() >= 2 {
                        out.push(Instruction::From(toks[1].clone()));
                        kept = true;
                    }
                } else if kw_match(toks[0].as_str(), "WORKDIR") {
                    if toks.len() >= 2 {
                        out.push(Instruction::Workdir(toks[1].clone()));
                        kept = true;
                    }
                } else if kw_match(toks[0].as_str(), "COPY") {
                    if toks.len() >= 3 {
                        out.push(Instruction::Copy(toks[1].clone(), toks[2].clone()));
                        kept = true;
                    }
                } else if kw_match(toks[0].as_str(), "RUN") {
                    out.push(Instruction::Run(args));
                    kept = true;
                } else if kw_match(toks[0].as_str(), "ENV") {
                    let alen = args.unicode_len();
                    let mut sep: usize = 0;
                    while sep < alen && args.get_char(sep) != '=' && args.get_char(sep) != ' '
                        invariant
                            sep <= alen,
                            alen == args@.len(),
                            forall|m: int| 0 <= m < sep ==> (args@[m] != '=' && args@[m] != ' '),
                        decreases alen - sep,
                    {
                        sep = sep + 1;
                    }
                    proof {
                        lemma_find_env_sep_at(args@, sep as int);
                    }
                    if sep < alen {
                        let key = args.substring_char(0, sep).to_owned();
                        let val = args.substring_char(sep + 1, alen).to_owned();
                        proof {
                            assert(key@ == args@.take(find_env_sep(args@) as int));
                            assert(val@ == args@.skip(find_env_sep(args@) as int + 1));
                        }
                        out.push(Instruction::Env(key, val));
                        kept = true;
                    }
                } else if kw_match(toks[0].as_str(), "CMD") {
                    out.push(Instruction::Cmd(args));
                    kept = true;
                } else if kw_match(toks[0].as_str(), "GIT") {
                    if toks.len() >= 3 {
                        out.push(Instruction::Git(toks[1].clone(), toks[2].clone()));
                        kept = true;
                    } else if toks.len() == 2 {
                        let dot = String::from_str(".");
                        out.push(Instruction::Git(toks[1].clone(), dot));
                        kept = true;
                    }
                } else if kw_match(toks[0].as_str(), "RUN_EXTEND") {
                    out.push(Instruction::RunExtend(args, true));
                    kept = true;
                } else if kw_match(toks[0].as_str(), "COPY_EXTEND") {
                    if toks.len() >= 3 {
                        let mut tags: Vec<String> = Vec::new();
                        let mut m: usize = 3;
                        proof {
                            assert(crate::strutil::seq_views(tags@) =~= tsq.subrange(3, 3));
                        }
                        while m < toks.len()
                            invariant
                                3 <= m <= toks@.len(),
                                crate::strutil::seq_views(toks@) == tsq,
                                toks@.len() == tsq.len(),
                                crate::strutil::seq_views(tags@) == tsq.subrange(3, m as int),
                            decreases toks@.len() - m,
                        {
                            let ghost old_tags = tags@;
                            tags.push(toks[m].clone());
                            proof {
                                assert(crate::strutil::seq_views(tags@)
                                    =~= crate::strutil::seq_views(old_tags).push(tsq[m as int]));
                                assert(crate::strutil::seq_views(tags@) =~= tsq.subrange(
                                    3,
                                    m as int + 1,
                                ));
                            }
                            m = m + 1;
                        }
                        proof {
                            assert(tsq.subrange(3, tsq.len() as int) =~= tsq.skip(3));
                        }
                        out.push(
                            Instruction::CopyExtend(toks[1].clone(), toks[2].clone(), tags),
                        );
                        kept = true;
                    }
                } else if kw_match(toks[0].as_str(), "HOOK") {
                    if toks.len() >= 2 {
                        let mut params: Vec<String> = Vec::new();
                        let mut m: usize = 2;
                        proof {
                            assert(crate::strutil::seq_views(params@) =~= tsq.subrange(2, 2));
                        }
                        while m < toks.len()
                            invariant
                                2 <= m <= toks@.len(),
                                crate::strutil::seq_views(toks@) == tsq,
                                toks@.len() == tsq.len(),
                                crate::strutil::seq_views(params@) == tsq.subrange(2, m as int),
                            decreases toks@.len() - m,
                        {
                            let ghost old_params = params@;
                            params.push(toks[m].clone());
                            proof {
                                assert(crate::strutil::seq_views(params@)
                                    =~= crate::strutil::seq_views(old_params).push(tsq[m as int]));
                                assert(crate::strutil::seq_views(params@) =~= tsq.subrange(
                                    2,
                                    m as int + 1,
                                ));
                            }
                            m = m + 1;
                        }
                        proof {
                            assert(tsq.subrange(2, tsq.len() as int) =~= tsq.skip(2));
                        }
                        out.push(Instruction::Hook(toks[1].clone(), params));
                        kept = true;
                    }
                } else {
                    out.push(Instruction::Other(t.clone()));
                    kept = true;
                }
            }
        }
        proof {
            let ghost old_processed = processed_v@;
            processed_v@ = processed_v@.push(seg);
            assert(seq![seg].drop_first() =~= Seq::<Seq<char>>::empty());
            assert(kept_of(seq![seg]) == (if line_keeps(tl) {
                seq![tl]
            } else {
                Seq::<Seq<char>>::empty()
            })) by {
                assert(kept_of(Seq::<Seq<char>>::empty()) =~= Seq::<Seq<char>>::empty());
                if line_keeps(tl) {
                    assert(kept_of(seq![seg]) =~= seq![tl]);
                } else {
                    assert(kept_of(seq![seg]) =~= Seq::<Seq<char>>::empty());
                }
            }
            lemma_kept_of_concat(old_processed, seq![seg]);
            assert(old_processed.push(seg) =~= old_processed + seq![seg]);
            assert(kept == line_keeps(tl));
            if kept {
                assert(kept_of(processed_v@) =~= kept_of(old_processed).push(tl));
                assert(line_matches(tl, out@.last()));
            } else {
                assert(kept_of(processed_v@) =~= kept_of(old_processed));
            }
        }
        if k == n {
            done = true;
            proof {
                assert(processed_v@ =~= all_lines);
            }
        } else {
            pos = k + 1;
            proof {
                assert(all_lines =~= processed_v@ + lines_of(content@.skip(pos as int)));
            }
        }
    }
    out
}

proof fn lemma_find_env_sep_at(s: Seq<char>, k: int)
    requires
        0 <= k <= s.len(),
        forall|m: int| 0 <= m < k ==> (s[m] != '=' && s[m] != ' '),
        k < s.len() ==> (s[k] == '=' || s[k] == ' '),
    ensures
        find_env_sep(s) == k,
    decreases k,
{
    if k > 0 {
        assert(s[0] != '=' && s[0] != ' ');
        assert(forall|m: int| 0 <= m < k - 1 ==> s.drop_first()[m] == s[m + 1]);
        assert(k - 1 < s.drop_first().len() ==> s.drop_first()[k - 1] == s[k]);
        lemma_find_env_sep_at(s.drop_first(), k - 1);
    }
}

/// A handler for one family of extended instructions; the surrounding
/// application registers implementations and dispatches parsed extension
/// node kinds to them.
pub trait DockerExtension {
    fn name(&self) -> &str;

    fn execute(&self, node: &crate::graph::NodeKind);
}

/// Does `s` begin with `p`?
pub open spec fn starts_with(s: Seq<char>, p: Seq<char>) -> bool {
    p.len() <= s.len() && s.take(p.len() as int) == p
}

/// Check whether `s` begins with `p`.
pub fn str_starts_with(s: &str, p: &str) -> (r: bool)
    ensures
        r == starts_with(s@, p@),
{
    let sn = s.unicode_len();
    let pn = p.unicode_len();
    if pn > sn {
        return false;
    }
    let mut i: usize = 0;
    while i < pn
        invariant
            i <= pn <= sn,
            sn == s@.len(),
            pn == p@.len(),
            forall|m: int| 0 <= m < i ==> s@[m] == p@[m],
        decreases pn - i,
    {
        let sc = s.get_char(i);
        let pc = p.get_char(i);
        if sc as u32 != pc as u32 {
            proof {
                if sc == pc {
                    assert(false);
                }
                assert(s@.take(p@.len() as int)[i as int] == s@[i as int]);
            }
            return false;
        }
        proof {
            if sc != pc {
                crate::strutil::lemma_char_cast_injective(sc, pc);
            }
        }
        i = i + 1;
    }
    proof {
        assert(s@.take(p@.len() as int) =~= p@);
    }
    true
}

/// Does an extension line yield a node kind?
pub open spec fn ext_keeps(l: Seq<char>) -> bool {
    if starts_with(l, "RUN_EXTEND"@) {
        true
    } else if starts_with(l, "COPY_EXTEND"@) {
        tokens_of(l.skip("COPY_EXTEND"@.len() as int)).len() >= 2
    } else if starts_with(l, "HOOK"@) {
        tokens_of(l.skip("HOOK"@.len() as int)).len() >= 1
    } else {
        false
    }
}

/// What node kind an extension line parses to.
pub open spec fn ext_matches(l: Seq<char>, k: crate::graph::NodeKind) -> bool {
    if starts_with(l, "RUN_EXTEND"@) {
        k matches crate::graph::NodeKind::RunExtend { command, parallelizable } && command@
            == trim(l.skip("RUN_EXTEND"@.len() as int)) && parallelizable == true
    } else if starts_with(l, "COPY_EXTEND"@) {
        let t = tokens_of(l.skip("COPY_EXTEND"@.len() as int));
        k matches crate::graph::NodeKind::CopyExtend { src, dst, tags } && src@ == t[0] && dst@
            == t[1] && crate::strutil::seq_views(tags@) == t.skip(2)
    } else if starts_with(l, "HOOK"@) {
        let t = tokens_of(l.skip("HOOK"@.len() as int));
        k matches crate::graph::NodeKind::CustomHook { hook_name, params } && hook_name@ == t[0]
            && crate::strutil::seq_views(params@) == t.skip(1)
    } else {
        false
    }
}

/// The extension lines that yield node kinds, in order.
pub open spec fn kept_ext_of(lines: Seq<Seq<char>>) -> Seq<Seq<char>>
    decreases lines.len(),
{
    if lines.len() == 0 {
        Seq::empty()
    } else {
        let rest = kept_ext_of(lines.drop_first());
        if ext_keeps(lines[0]) {
            seq![lines[0]] + rest
        } else {
            rest
        }
    }
}

proof fn lemma_kept_ext_concat(a: Seq<Seq<char>>, b: Seq<Seq<char>>)
    ensures
        kept_ext_of(a + b) == kept_ext_of(a) + kept_ext_of(b),
    decreases a.len(),
{
    if a.len() == 0 {
        assert(a + b =~= b);
        assert(kept_ext_of(a) =~= Seq::<Seq<char>>::empty());
        assert(kept_ext_of(a + b) =~= kept_ext_of(a) + kept_ext_of(b));
    } else {
        assert((a + b)[0] == a[0]);
        assert((a + b).drop_first() =~= a.drop_first() + b);
        lemma_kept_ext_concat(a.drop_first(), b);
        assert(kept_ext_of(a + b) =~= kept_ext_of(a) + kept_ext_of(b));
    }
}

/// Parse extended instructions (`RUN_EXTEND`, `COPY_EXTEND`, `HOOK`) into
/// node kinds; other lines are skipped.
pub fn parse_docker_extensions(lines: &Vec<String>) -> (r: Vec<crate::graph::NodeKind>)
    ensures
        r@.len() == kept_ext_of(crate::strutil::seq_views(lines@)).len(),
        forall|i: int|
            0 <= i < r@.len() ==> ext_matches(
                kept_ext_of(crate::strutil::seq_views(lines@))[i],
                #[trigger] r@[i],
            ),
{
    let ghost lv = crate::strutil::seq_views(lines@);
    let mut out: Vec<crate::graph::NodeKind> = Vec::new();
    let mut i: usize = 0;
    proof {
        assert(kept_ext_of(lv.take(0)) =~= Seq::<Seq<char>>::empty());
    }
    while i < lines.len()
        invariant
            i <= lines@.len(),
            lv == crate::strutil::seq_views(lines@),
            out@.len() == kept_ext_of(lv.take(i as int)).len(),
            forall|q: int|
                0 <= q < out@.len() ==> ext_matches(
                    kept_ext_of(lv.take(i as int))[q],
                    #[trigger] out@[q],
                ),
        decreases lines@.len() - i,
    {
        let line = &lines[i];
        let ghost l = lv[i as int];
        let mut kept = false;
        if str_starts_with(line.as_str(), "RUN_EXTEND") {
            let pn = "RUN_EXTEND".unicode_len();
            let rest = line.as_str().substring_char(pn, line.as_str().unicode_len());
            let cmd = trim_str(rest);
            proof {
                assert(cmd@ == trim(l.skip("RUN_EXTEND"@.len() as int)));
            }
            let cmd2 = cmd.clone();
            out.push(crate::graph::NodeKind::RunExtend { command: cmd2, parallelizable: true });
            kept = true;
        } else if str_starts_with(line.as_str(), "COPY_EXTEND") {
            let pn = "COPY_EXTEND".unicode_len();
            let rest = line.as_str().substring_char(pn, line.as_str().unicode_len());
            let toks = tokenize(rest);
            let ghost tsq = tokens_of(l.skip("COPY_EXTEND"@.len() as int));
            proof {
                assert(crate::strutil::seq_views(toks@) == tsq);
            }
            if toks.len() >= 2 {
                let mut tags: Vec<String> = Vec::new();
                let mut m: usize = 2;
                proof {
                    assert(crate::strutil::seq_views(tags@) =~= tsq.subrange(2, 2));
                }
                while m < toks.len()
                    invariant
                        2 <= m <= toks@.len(),
                        crate::strutil::seq_views(toks@) == tsq,
                        toks@.len() == tsq.len(),
                        crate::strutil::seq_views(tags@) == tsq.subrange(2, m as int),
                    decreases toks@.len() - m,
                {
                    let ghost old_tags = tags@;
                    tags.push(toks[m].clone());
                    proof {
                        assert(crate::strutil::seq_views(tags@) =~= crate::strutil::seq_views(
                            old_tags,
                        ).push(tsq[m as int]));
                        assert(crate::strutil::seq_views(tags@) =~= tsq.subrange(2, m as int + 1));
                    }
                    m = m + 1;
                }
                proof {
                    assert(tsq.subrange(2, tsq.len() as int) =~= tsq.skip(2));
                }
                out.push(
                    crate::graph::NodeKind::CopyExtend {
                        src: toks[0].clone(),
                        dst: toks[1].clone(),
                        tags,
                    },
                );
                kept = true;
            }
        } else if str_starts_with(line.as_str(), "HOOK") {
            let pn = "HOOK".unicode_len();
            let rest = line.as_str().substring_char(pn, line.as_str().unicode_len());
            let toks = tokenize(rest);
            let ghost tsq = tokens_of(l.skip("HOOK"@.len() as int));
            proof {
                assert(crate::strutil::seq_views(toks@) == tsq);
            }
            if toks.len() >= 1 {
                let mut params: Vec<String> = Vec::new();
                let mut m: usize = 1;
                proof {
                    assert(crate::strutil::seq_views(params@) =~= tsq.subrange(1, 1));
                }
                while m < toks.len()
                    invariant
                        1 <= m <= toks@.len(),
                        crate::strutil::seq_views(toks@) == tsq,
                        toks@.len() == tsq.len(),
                        crate::strutil::seq_views(params@) == tsq.subrange(1, m as int),
                    decreases toks@.len() - m,
                {
                    let ghost old_params = params@;
                    params.push(toks[m].clone());
                    proof {
                        assert(crate::strutil::seq_views(params@) =~= crate::strutil::seq_views(
                            old_params,
                        ).push(tsq[m as int]));
                        assert(crate::strutil::seq_views(params@) =~= tsq.subrange(
                            1,
                            m as int + 1,
                        ));
                    }
                    m = m + 1;
                }
                proof {
                    assert(tsq.subrange(1, tsq.len() as int) =~= tsq.skip(1));
                }
                out.push(
                    crate::graph::NodeKind::CustomHook { hook_name: toks[0].clone(), params },
                );
                kept = true;
            }
        }
        proof {
            lemma_kept_ext_concat(lv.take(i as int), seq![l]);
            assert(lv.take(i as int + 1) =~= lv.take(i as int) + seq![l]);
            assert(seq![l].drop_first() =~= Seq::<Seq<char>>::empty());
            assert(kept_ext_of(Seq::<Seq<char>>::empty()) =~= Seq::<Seq<char>>::empty());
            assert(kept_ext_of(seq![l]) == (if ext_keeps(l) {
                seq![l]
            } else {
                Seq::<Seq<char>>::empty()
            })) by {
                if ext_keeps(l) {
                    assert(kept_ext_of(seq![l]) =~= seq![l]);
                } else {
                    assert(kept_ext_of(seq![l]) =~= Seq::<Seq<char>>::empty());
                }
            }
            assert(kept == ext_keeps(l));
            if kept {
                assert(kept_ext_of(lv.take(i as int + 1)) =~= kept_ext_of(lv.take(i as int)).push(
                    l,
                ));
                assert(ext_matches(l, out@.last()));
            } else {
                assert(kept_ext_of(lv.take(i as int + 1)) =~= kept_ext_of(lv.take(i as int)));
            }
        }
        i = i + 1;
    }
    proof {
        assert(lv.take(lv.len() as int) =~= lv);
    }
    out
}

} // verus!
