//! The `Author` record and its line grammar.
//!
//! An author is stored as a single configuration value of the shape
//! `<alias> | <name> | <email>`: three `|`-separated fields, each side of a
//! separator optionally padded with whitespace. `alias` and `email` are
//! non-empty runs of non-whitespace characters (a `|` inside them is legal);
//! `name` may contain internal whitespace but must be non-empty after
//! trimming. Whitespace around the whole line is ignored.
//!
//! With `|` legal inside tokens the separators need a rule. The grammar binds
//! them the way a greedy alias, a lazy name and an end-anchored email resolve:
//! the alias is the longest whitespace-free prefix that still lets the rest of
//! the line parse, its separator is the `|` that follows it directly or after
//! whitespace, the second separator is the earliest later `|` followed by
//! nothing but optional whitespace and one final whitespace-free token (the
//! email), and the name is what stands between the separators, trimmed.

use vstd::prelude::*;

use crate::text::{
    is_ws, lemma_next_token, lemma_next_token_at, lemma_token_end, lemma_token_end_at,
    lemma_trim_all_ws, lemma_trim_from, lemma_trimmed_ends, next_token, token_end, token_ok, trim,
    ws,
};

verus! {

/// The mathematical value of an [`Author`]: its three fields as character
/// sequences.
pub struct AuthorView {
    pub alias: Seq<char>,
    pub name: Seq<char>,
    pub email: Seq<char>,
}

/// One co-author identity.
#[derive(Debug)]
pub struct Author {
    pub alias: String,
    pub name: String,
    pub email: String,
}

impl View for Author {
    type V = AuthorView;

    open spec fn view(&self) -> AuthorView {
        AuthorView { alias: self.alias@, name: self.name@, email: self.email@ }
    }
}

impl DeepView for Author {
    type V = AuthorView;

    open spec fn deep_view(&self) -> AuthorView {
        self.view()
    }
}

impl PartialEq for Author {
    fn eq(&self, other: &Author) -> (r: bool) {
        self.alias == other.alias && self.name == other.name && self.email == other.email
    }
}

impl vstd::std_specs::cmp::PartialEqSpecImpl for Author {
    open spec fn obeys_eq_spec() -> bool {
        true
    }

    open spec fn eq_spec(&self, other: &Author) -> bool {
        self@ == other@
    }
}

impl Eq for Author {
}

impl Clone for Author {
    fn clone(&self) -> (r: Author)
        ensures
            r@ == self@,
    {
        Author { alias: self.alias.clone(), name: self.name.clone(), email: self.email.clone() }
    }
}

/// The error returned when a line does not match the author grammar.
#[derive(Debug, PartialEq, Eq, Structural)]
pub struct ParseError;

/// The values an [`Author`] may hold: `alias` and `email` are non-empty and
/// whitespace-free; `name` is non-empty and equal to its own trim.
pub open spec fn valid_author(a: AuthorView) -> bool {
    &&& token_ok(a.alias)
    &&& a.name.len() > 0
    &&& trim(a.name) == a.name
    &&& token_ok(a.email)
}

/// Whether the `|` at `q` can be the second separator: what follows it is
/// optional whitespace and then one non-empty whitespace-free token reaching
/// the end of the trimmed line — the email.
pub open spec fn sep_ok(t: Seq<char>, q: int) -> bool {
    let r = next_token(t, q + 1);
    &&& 0 <= q < t.len()
    &&& t[q] == '|'
    &&& r < t.len()
    &&& forall|k: int| r <= k < t.len() ==> !ws(t[k])
}

/// The earliest possible second separator strictly after `j`, or `t.len()` if
/// there is none.
pub open spec fn first_sep_after(t: Seq<char>, j: int) -> int
    decreases t.len() - j
        when -1 <= j <= t.len()
{
    if j + 1 >= t.len() {
        t.len() as int
    } else if sep_ok(t, j + 1) {
        j + 1
    } else {
        first_sep_after(t, j + 1)
    }
}

/// The first separator belonging to the alias candidate of length `a`: the
/// `|` directly at `a`, or — when `a` is the whole leading token — the first
/// non-whitespace character after it.
pub open spec fn cand_sep(t: Seq<char>, a: int) -> int {
    if a == token_end(t, 0) {
        next_token(t, a)
    } else {
        a
    }
}

/// Whether the alias candidate of length `a` admits a parse: its separator is
/// a `|`, and past the first non-whitespace character after that separator
/// (so the name is non-empty) a second separator exists.
pub open spec fn cand_ok(t: Seq<char>, a: int) -> bool {
    let p = cand_sep(t, a);
    &&& 0 < a <= token_end(t, 0)
    &&& p < t.len()
    &&& t[p] == '|'
    &&& first_sep_after(t, next_token(t, p + 1)) < t.len()
}

/// The longest alias candidate of length at most `a` admitting a parse, or
/// `0` if there is none.
pub open spec fn best_alias(t: Seq<char>, a: int) -> int
    decreases a
        when a >= 0
{
    if a <= 0 {
        0
    } else if cand_ok(t, a) {
        a
    } else {
        best_alias(t, a - 1)
    }
}

/// The grammar applied to an already-trimmed line `t`.
pub open spec fn parse_trimmed(t: Seq<char>) -> Option<AuthorView> {
    let a = best_alias(t, token_end(t, 0));
    if a == 0 {
        None
    } else {
        let p = cand_sep(t, a);
        let j = next_token(t, p + 1);
        let q = first_sep_after(t, j);
        let r = next_token(t, q + 1);
        Some(
            AuthorView {
                alias: t.subrange(0, a),
                name: trim(t.subrange(p + 1, q)),
                email: t.subrange(r, t.len() as int),
            },
        )
    }
}

/// What parsing a raw stored line yields, if anything.
pub open spec fn parse_line(s: Seq<char>) -> Option<AuthorView> {
    parse_trimmed(trim(s))
}

/// The round-trip storage form of an author: `alias | name | email`.
pub open spec fn roundtrip_spec(a: AuthorView) -> Seq<char> {
    a.alias + " | "@ + a.name + " | "@ + a.email
}

/// The commit-trailer form: `Co-authored-by: name <email>`.
pub open spec fn trailer_spec(a: AuthorView) -> Seq<char> {
    "Co-authored-by: "@ + a.name + " <"@ + a.email + ">"@
}

/// The human-readable listing form: `[alias] name <email>`.
pub open spec fn display_spec(a: AuthorView) -> Seq<char> {
    "["@ + a.alias + "] "@ + a.name + " <"@ + a.email + ">"@
}

/// What `best_alias` returns: either `0` or a candidate that admits a parse.
pub proof fn lemma_best_alias(t: Seq<char>, a0: int)
    requires
        a0 >= 0,
    ensures
        0 <= best_alias(t, a0) <= a0,
        best_alias(t, a0) > 0 ==> cand_ok(t, best_alias(t, a0)),
    decreases a0,
{
    if a0 > 0 && !cand_ok(t, a0) {
        lemma_best_alias(t, a0 - 1);
    }
}

/// What `first_sep_after` returns: a possible second separator with no
/// earlier one after `j`, or `t.len()` when there is none.
pub proof fn lemma_first_sep_after(t: Seq<char>, j: int)
    requires
        -1 <= j <= t.len(),
    ensures
        first_sep_after(t, j) <= t.len(),
        first_sep_after(t, j) < t.len() ==> j < first_sep_after(t, j) && sep_ok(
            t,
            first_sep_after(t, j),
        ),
        forall|k: int| j < k < first_sep_after(t, j) ==> !sep_ok(t, k),
    decreases t.len() - j,
{
    if j + 1 < t.len() && !sep_ok(t, j + 1) {
        lemma_first_sep_after(t, j + 1);
    }
}

/// `first_sep_after` is pinned down by exhibiting the earliest possible
/// second separator.
pub proof fn lemma_first_sep_after_at(t: Seq<char>, j: int, q: int)
    requires
        -1 <= j < q < t.len(),
        sep_ok(t, q),
        forall|k: int| j < k < q ==> !sep_ok(t, k),
    ensures
        first_sep_after(t, j) == q,
{
    lemma_first_sep_after(t, j);
}

/// The characters of the round-trip storage form, position by position.
proof fn lemma_roundtrip_chars(a: AuthorView)
    ensures
        ({
            let s = roundtrip_spec(a);
            let l1 = a.alias.len() as int;
            let ln = a.name.len() as int;
            let l2 = a.email.len() as int;
            &&& s.len() == l1 + ln + l2 + 6
            &&& (forall|j: int| 0 <= j < l1 ==> s[j] == a.alias[j])
            &&& s[l1] == ' ' && s[l1 + 1] == '|' && s[l1 + 2] == ' '
            &&& (forall|j: int| 0 <= j < ln ==> s[l1 + 3 + j] == a.name[j])
            &&& s[l1 + ln + 3] == ' ' && s[l1 + ln + 4] == '|' && s[l1 + ln + 5] == ' '
            &&& (forall|j: int| 0 <= j < l2 ==> s[l1 + ln + 6 + j] == a.email[j])
        }),
{
    reveal_strlit(" | ");
}

/// No `|` strictly between the name's start and the second separator of the
/// round-trip form can itself be a second separator: the space before the
/// email still follows it.
proof fn lemma_roundtrip_mid_no_sep(a: AuthorView, q: int)
    requires
        valid_author(a),
        a.alias.len() + 3 < q < a.alias.len() + a.name.len() + 4,
    ensures
        !sep_ok(roundtrip_spec(a), q),
{
    lemma_roundtrip_chars(a);
    let s = roundtrip_spec(a);
    let l1 = a.alias.len() as int;
    let ln = a.name.len() as int;
    let qsep = l1 + ln + 4;
    if s[q] == '|' {
        lemma_next_token(s, q + 1);
        let r = next_token(s, q + 1);
        assert(!ws(s[qsep]));
        assert(r <= qsep);
        assert(ws(s[l1 + ln + 5]));
    }
}

/// Where the scans land on the round-trip storage form: the leading token is
/// the alias, the separators are the two written `|`, and the name and email
/// start right where the format put them.
proof fn lemma_roundtrip_seps(a: AuthorView)
    requires
        valid_author(a),
    ensures
        ({
            let s = roundtrip_spec(a);
            let l1 = a.alias.len() as int;
            let ln = a.name.len() as int;
            &&& token_end(s, 0) == l1
            &&& next_token(s, l1) == l1 + 1
            &&& next_token(s, l1 + 2) == l1 + 3
            &&& first_sep_after(s, l1 + 3) == l1 + ln + 4
            &&& sep_ok(s, l1 + ln + 4)
            &&& next_token(s, l1 + ln + 5) == l1 + ln + 6
        }),
{
    lemma_roundtrip_chars(a);
    let s = roundtrip_spec(a);
    let l1 = a.alias.len() as int;
    let ln = a.name.len() as int;
    let len = s.len() as int;
    lemma_trimmed_ends(a.name);
    lemma_token_end_at(s, 0, l1);
    lemma_next_token_at(s, l1, l1 + 1);
    lemma_next_token_at(s, l1 + 2, l1 + 3);
    let j = l1 + 3;
    let qsep = l1 + ln + 4;
    lemma_next_token_at(s, qsep + 1, l1 + ln + 6);
    assert(sep_ok(s, qsep));
    assert forall|q: int| j < q < qsep implies !sep_ok(s, q) by {
        lemma_roundtrip_mid_no_sep(a, q);
    }
    lemma_first_sep_after_at(s, j, qsep);
}

/// Round-trip law: parsing the round-trip storage form of any valid author —
/// any non-empty whitespace-free alias and email, any non-empty trimmed name
/// — yields that author back.
pub proof fn lemma_roundtrip(a: AuthorView)
    requires
        valid_author(a),
    ensures
        parse_line(roundtrip_spec(a)) == Some(a),
{
    lemma_roundtrip_chars(a);
    lemma_roundtrip_seps(a);
    let s = roundtrip_spec(a);
    let l1 = a.alias.len() as int;
    let ln = a.name.len() as int;
    let len = s.len() as int;
    let qsep = l1 + ln + 4;
    lemma_trimmed_ends(a.name);
    // The whole line is already trimmed: it starts and ends with
    // non-whitespace.
    lemma_trim_from(s, 0, len);
    assert(trim(s) =~= s);
    // The full alias is a candidate that admits a parse, so, being longest,
    // it is the one chosen.
    assert(cand_ok(s, l1));
    assert(best_alias(s, l1) == l1);
    // The three fields come back exactly.
    assert(s.subrange(0, l1) =~= a.alias);
    let region = s.subrange(l1 + 2, qsep);
    lemma_trim_from(region, 1, ln + 1);
    assert(region.subrange(1, ln + 1) =~= a.name);
    assert(s.subrange(l1 + ln + 6, len) =~= a.email);
    assert(parse_trimmed(s) == Some(a));
}

/// Executable `next_token`.
fn next_token_x(ts: &str, i: usize, n: usize) -> (r: usize)
    requires
        n == ts@.len(),
        i <= n,
    ensures
        r == next_token(ts@, i as int),
        i <= r <= n,
{
    let mut r = i;
    while r < n && is_ws(ts.get_char(r))
        invariant
            i <= r <= n,
            n == ts@.len(),
            next_token(ts@, i as int) == next_token(ts@, r as int),
        decreases n - r,
    {
        r += 1;
    }
    r
}

/// Executable `token_end`.
fn token_end_x(ts: &str, i: usize, n: usize) -> (r: usize)
    requires
        n == ts@.len(),
        i <= n,
    ensures
        r == token_end(ts@, i as int),
        i <= r <= n,
{
    let mut r = i;
    while r < n && !is_ws(ts.get_char(r))
        invariant
            i <= r <= n,
            n == ts@.len(),
            token_end(ts@, i as int) == token_end(ts@, r as int),
        decreases n - r,
    {
        r += 1;
    }
    r
}

/// Executable `sep_ok`.
fn sep_ok_x(ts: &str, q: usize, n: usize) -> (b: bool)
    requires
        n == ts@.len(),
        q < n,
    ensures
        b == sep_ok(ts@, q as int),
{
    if ts.get_char(q) != '|' {
        return false;
    }
    let r = next_token_x(ts, q + 1, n);
    if r == n {
        return false;
    }
    let mut k = r;
    while k < n && !is_ws(ts.get_char(k))
        invariant
            r <= k <= n,
            n == ts@.len(),
            forall|m: int| r <= m < k ==> !ws(ts@[m]),
        decreases n - k,
    {
        k += 1;
    }
    if k < n {
        proof {
            assert(ws(ts@[k as int]));
        }
        return false;
    }
    true
}

/// Executable `first_sep_after`.
fn first_sep_after_x(ts: &str, j: usize, n: usize) -> (q: usize)
    requires
        n == ts@.len(),
        j <= n,
    ensures
        q == first_sep_after(ts@, j as int),
        q <= n,
{
    let mut cur = j;
    loop
        invariant
            j <= cur <= n,
            n == ts@.len(),
            first_sep_after(ts@, j as int) == first_sep_after(ts@, cur as int),
        decreases n - cur,
    {
        if n - cur <= 1 {
            return n;
        }
        if sep_ok_x(ts, cur + 1, n) {
            return cur + 1;
        }
        cur += 1;
    }
}

/// Executable `cand_ok`.
fn cand_ok_x(ts: &str, a: usize, m: usize, n: usize) -> (b: bool)
    requires
        n == ts@.len(),
        m == token_end(ts@, 0),
        1 <= a <= m,
        m <= n,
    ensures
        b == cand_ok(ts@, a as int),
{
    let p = if a == m {
        next_token_x(ts, a, n)
    } else {
        a
    };
    if p == n {
        return false;
    }
    if ts.get_char(p) != '|' {
        return false;
    }
    let j = next_token_x(ts, p + 1, n);
    let q = first_sep_after_x(ts, j, n);
    q < n
}

/// Executable `best_alias`.
fn best_alias_x(ts: &str, n: usize) -> (a: usize)
    requires
        n == ts@.len(),
    ensures
        a == best_alias(ts@, token_end(ts@, 0)),
        a <= n,
{
    let m = token_end_x(ts, 0, n);
    let mut a = m;
    loop
        invariant
            a <= m <= n,
            n == ts@.len(),
            m == token_end(ts@, 0),
            best_alias(ts@, token_end(ts@, 0)) == best_alias(ts@, a as int),
        decreases a,
    {
        if a == 0 {
            return 0;
        }
        if cand_ok_x(ts, a, m, n) {
            return a;
        }
        a -= 1;
    }
}

impl Author {
    /// Parses one stored line into an author, per the grammar above. Returns
    /// `Err` exactly when the line does not match the grammar.
    #[verifier::loop_isolation(false)]
    #[verifier::rlimit(60)]
    pub fn parse(line: &str) -> (r: Result<Author, ParseError>)
        ensures
            match r {
                Ok(author) => parse_line(line@) == Some(author@) && valid_author(author@),
                Err(_) => parse_line(line@) is None,
            },
    {
        let n0 = line.unicode_len();
        // Trim the whole line: [start, end) is its non-whitespace extent.
        let mut start: usize = 0;
        while start < n0 && is_ws(line.get_char(start))
            invariant
                0 <= start <= n0,
                forall|j: int| 0 <= j < start ==> ws(line@[j]),
            decreases n0 - start,
        {
            start += 1;
        }
        if start == n0 {
            proof {
                lemma_trim_all_ws(line@);
            }
            return Err(ParseError);
        }
        let mut end: usize = n0;
        while end > start && is_ws(line.get_char(end - 1))
            invariant
                start + 1 <= end <= n0,
                forall|j: int| end <= j < n0 ==> ws(line@[j]),
            decreases end,
        {
            end -= 1;
        }
        proof {
            lemma_trim_from(line@, start as int, end as int);
        }
        let ts = line.substring_char(start, end);
        let n = end - start;
        proof {
            assert(ts@ =~= trim(line@));
        }
        // The alias: the longest leading-token prefix admitting a parse.
        let a = best_alias_x(ts, n);
        if a == 0 {
            return Err(ParseError);
        }
        proof {
            lemma_token_end(ts@, 0);
            lemma_best_alias(ts@, token_end(ts@, 0));
        }
        // Its separator, the start of the name, the second separator, and the
        // start of the email.
        let m = token_end_x(ts, 0, n);
        let p = if a == m {
            next_token_x(ts, a, n)
        } else {
            a
        };
        let j = next_token_x(ts, p + 1, n);
        let q = first_sep_after_x(ts, j, n);
        proof {
            lemma_first_sep_after(ts@, j as int);
            lemma_next_token(ts@, p + 1);
            lemma_token_end(ts@, 0);
        }
        let r = next_token_x(ts, q + 1, n);
        // The name: the region between the separators, trimmed. Its start `j`
        // is already non-whitespace; scan its end.
        let mut ne = q;
        while ne > j && is_ws(ts.get_char(ne - 1))
            invariant
                j <= ne <= q,
                forall|k: int| ne <= k < q ==> ws(ts@[k]),
            decreases ne,
        {
            ne -= 1;
        }
        proof {
            let region = ts@.subrange(p + 1, q as int);
            lemma_trim_from(region, j - (p + 1), ne - (p + 1));
            assert(trim(region) =~= ts@.subrange(j as int, ne as int));
        }
        let alias = ts.substring_char(0, a).to_owned();
        let name = ts.substring_char(j, ne).to_owned();
        let email = ts.substring_char(r, n).to_owned();
        let author = Author { alias, name, email };
        proof {
            assert(author@.alias =~= ts@.subrange(0, a as int));
            assert(author@.name =~= trim(ts@.subrange(p + 1, q as int)));
            assert(author@.email =~= ts@.subrange(r as int, n as int));
            assert(parse_trimmed(ts@) == Some(author@));
            let name_seq = ts@.subrange(j as int, ne as int);
            lemma_trim_from(name_seq, 0, name_seq.len() as int);
            assert(trim(author@.name) =~= author@.name);
        }
        Ok(author)
    }

    /// Formats the author in round-trip storage form, the shape
    /// [`Author::parse`] reads back.
    pub fn roundtrip_line(&self) -> (r: String)
        ensures
            r@ == roundtrip_spec(self@),
    {
        let mut out = String::from_str(self.alias.as_str());
        out.append(" | ");
        out.append(self.name.as_str());
        out.append(" | ");
        out.append(self.email.as_str());
        proof {
            assert(out@ =~= roundtrip_spec(self@));
        }
        out
    }

    /// Formats the author as a commit-message trailer; the alias is
    /// intentionally omitted.
    pub fn trailer_line(&self) -> (r: String)
        ensures
            r@ == trailer_spec(self@),
    {
        let mut out = String::from_str("Co-authored-by: ");
        out.append(self.name.as_str());
        out.append(" <");
        out.append(self.email.as_str());
        out.append(">");
        proof {
            assert(out@ =~= trailer_spec(self@));
        }
        out
    }

    /// Formats the author for human-readable listing output.
    pub fn display_line(&self) -> (r: String)
        ensures
            r@ == display_spec(self@),
    {
        let mut out = String::from_str("[");
        out.append(self.alias.as_str());
        out.append("] ");
        out.append(self.name.as_str());
        out.append(" <");
        out.append(self.email.as_str());
        out.append(">");
        proof {
            assert(out@ =~= display_spec(self@));
        }
        out
    }
}

} // verus!
