//! Character-level scanning used by the author grammar: ASCII whitespace,
//! trimming, and locating tokens and separators of a line.

use vstd::prelude::*;

verus! {

/// The characters the grammar treats as whitespace: the Unicode white-space
/// code points.
pub open spec fn ws(c: char) -> bool {
    ||| c == ' '
    ||| c == '\t'
    ||| c == '\n'
    ||| c == '\u{b}'
    ||| c == '\u{c}'
    ||| c == '\r'
    ||| c == '\u{85}'
    ||| c == '\u{a0}'
    ||| c == '\u{1680}'
    ||| c == '\u{2000}'
    ||| c == '\u{2001}'
    ||| c == '\u{2002}'
    ||| c == '\u{2003}'
    ||| c == '\u{2004}'
    ||| c == '\u{2005}'
    ||| c == '\u{2006}'
    ||| c == '\u{2007}'
    ||| c == '\u{2008}'
    ||| c == '\u{2009}'
    ||| c == '\u{200a}'
    ||| c == '\u{2028}'
    ||| c == '\u{2029}'
    ||| c == '\u{202f}'
    ||| c == '\u{205f}'
    ||| c == '\u{3000}'
}

/// Executable test for `ws`.
pub fn is_ws(c: char) -> (r: bool)
    ensures
        r == ws(c),
{
    c == ' ' || c == '\t' || c == '\n' || c == '\u{b}' || c == '\u{c}' || c == '\r' || c == '\u{85}'
        || c == '\u{a0}' || c == '\u{1680}' || c == '\u{2000}' || c == '\u{2001}' || c
        == '\u{2002}' || c == '\u{2003}' || c == '\u{2004}' || c == '\u{2005}' || c == '\u{2006}'
        || c == '\u{2007}' || c == '\u{2008}' || c == '\u{2009}' || c == '\u{200a}' || c
        == '\u{2028}' || c == '\u{2029}' || c == '\u{202f}' || c == '\u{205f}' || c == '\u{3000}'
}

/// A non-empty run of non-whitespace characters.
pub open spec fn token_ok(s: Seq<char>) -> bool {
    s.len() > 0 && (forall|i: int| 0 <= i < s.len() ==> !ws(s[i]))
}

/// `s` without its leading whitespace.
pub open spec fn trim_start(s: Seq<char>) -> Seq<char>
    decreases s.len(),
{
    if s.len() > 0 && ws(s[0]) {
        trim_start(s.drop_first())
    } else {
        s
    }
}

/// `s` without its trailing whitespace.
pub open spec fn trim_end(s: Seq<char>) -> Seq<char>
    decreases s.len(),
{
    if s.len() > 0 && ws(s.last()) {
        trim_end(s.drop_last())
    } else {
        s
    }
}

/// `s` without leading and trailing whitespace.
pub open spec fn trim(s: Seq<char>) -> Seq<char> {
    trim_end(trim_start(s))
}

/// The first index at or after `i` holding a non-whitespace character, or
/// `s.len()` if there is none.
pub open spec fn next_token(s: Seq<char>, i: int) -> int
    decreases s.len() - i
        when 0 <= i <= s.len()
{
    if i < s.len() && ws(s[i]) {
        next_token(s, i + 1)
    } else {
        i
    }
}

/// The end (exclusive) of the run of non-whitespace characters starting at
/// `i`: the first index at or after `i` holding whitespace, or `s.len()`.
pub open spec fn token_end(s: Seq<char>, i: int) -> int
    decreases s.len() - i
        when 0 <= i <= s.len()
{
    if i < s.len() && !ws(s[i]) {
        token_end(s, i + 1)
    } else {
        i
    }
}

/// Where the leading whitespace of `s` is exactly `[0, k)`, trimming the start
/// keeps exactly the rest.
pub proof fn lemma_trim_start_from(s: Seq<char>, k: int)
    requires
        0 <= k <= s.len(),
        forall|j: int| 0 <= j < k ==> ws(s[j]),
        k < s.len() ==> !ws(s[k]),
    ensures
        trim_start(s) =~= s.subrange(k, s.len() as int),
    decreases k,
{
    if k == 0 {
        assert(trim_start(s) =~= s.subrange(0, s.len() as int));
    } else {
        let t = s.drop_first();
        assert(forall|j: int| 0 <= j < k - 1 ==> ws(t[j]));
        lemma_trim_start_from(t, k - 1);
    }
}

/// Where the trailing whitespace of `s` is exactly `[k, s.len())`, trimming the
/// end keeps exactly the front.
pub proof fn lemma_trim_end_from(s: Seq<char>, k: int)
    requires
        0 <= k <= s.len(),
        forall|j: int| k <= j < s.len() ==> ws(s[j]),
        k > 0 ==> !ws(s[k - 1]),
    ensures
        trim_end(s) =~= s.subrange(0, k),
    decreases s.len() - k,
{
    if k == s.len() {
        if s.len() > 0 && ws(s.last()) {
            let t = s.drop_last();
            lemma_trim_end_from(t, t.len() as int);
        } else {
            assert(trim_end(s) =~= s.subrange(0, k));
        }
    } else {
        let t = s.drop_last();
        lemma_trim_end_from(t, k);
    }
}

/// Trimming a string whose non-whitespace content sits exactly in `[a, b)`
/// yields exactly that range.
pub proof fn lemma_trim_from(s: Seq<char>, a: int, b: int)
    requires
        0 <= a < b <= s.len(),
        forall|j: int| 0 <= j < a ==> ws(s[j]),
        forall|j: int| b <= j < s.len() ==> ws(s[j]),
        !ws(s[a]),
        !ws(s[b - 1]),
    ensures
        trim(s) =~= s.subrange(a, b),
{
    lemma_trim_start_from(s, a);
    let t = s.subrange(a, s.len() as int);
    lemma_trim_end_from(t, b - a);
    assert(t.subrange(0, b - a) =~= s.subrange(a, b));
}

/// A string that is whitespace throughout trims to the empty string.
pub proof fn lemma_trim_all_ws(s: Seq<char>)
    requires
        forall|j: int| 0 <= j < s.len() ==> ws(s[j]),
    ensures
        trim(s) =~= Seq::<char>::empty(),
{
    lemma_trim_start_from(s, s.len() as int);
    let t = s.subrange(s.len() as int, s.len() as int);
    assert(t.len() == 0);
}

/// Trimming the start never lengthens a string.
pub proof fn lemma_trim_start_len(s: Seq<char>)
    ensures
        trim_start(s).len() <= s.len(),
    decreases s.len(),
{
    if s.len() > 0 && ws(s[0]) {
        lemma_trim_start_len(s.drop_first());
    }
}

/// Trimming the end never lengthens a string.
pub proof fn lemma_trim_end_len(s: Seq<char>)
    ensures
        trim_end(s).len() <= s.len(),
    decreases s.len(),
{
    if s.len() > 0 && ws(s.last()) {
        lemma_trim_end_len(s.drop_last());
    }
}

/// A non-empty string equal to its own trim starts and ends with
/// non-whitespace.
pub proof fn lemma_trimmed_ends(s: Seq<char>)
    requires
        trim(s) == s,
        s.len() > 0,
    ensures
        !ws(s[0]),
        !ws(s.last()),
{
    lemma_trim_start_len(s);
    lemma_trim_end_len(trim_start(s));
    if ws(s[0]) {
        lemma_trim_start_len(s.drop_first());
        assert(trim(s).len() < s.len());
    }
    assert(trim_start(s).len() == s.len());
    lemma_trim_start_from(s, 0);
    assert(trim_start(s) =~= s);
    if ws(s.last()) {
        lemma_trim_end_len(s.drop_last());
        assert(trim_end(s).len() < s.len());
    }
}

/// What `next_token` returns: whitespace up to it, non-whitespace at it (when
/// it is not the end).
pub proof fn lemma_next_token(s: Seq<char>, i: int)
    requires
        0 <= i <= s.len(),
    ensures
        i <= next_token(s, i) <= s.len(),
        forall|k: int| i <= k < next_token(s, i) ==> ws(s[k]),
        next_token(s, i) < s.len() ==> !ws(s[next_token(s, i)]),
    decreases s.len() - i,
{
    if i < s.len() && ws(s[i]) {
        lemma_next_token(s, i + 1);
    }
}

/// `next_token` is pinned down by exhibiting the first non-whitespace index.
pub proof fn lemma_next_token_at(s: Seq<char>, i: int, k: int)
    requires
        0 <= i <= k <= s.len(),
        forall|m: int| i <= m < k ==> ws(s[m]),
        k < s.len() ==> !ws(s[k]),
    ensures
        next_token(s, i) == k,
{
    lemma_next_token(s, i);
}

/// What `token_end` returns: non-whitespace up to it, whitespace at it (when
/// it is not the end).
pub proof fn lemma_token_end(s: Seq<char>, i: int)
    requires
        0 <= i <= s.len(),
    ensures
        i <= token_end(s, i) <= s.len(),
        forall|k: int| i <= k < token_end(s, i) ==> !ws(s[k]),
        token_end(s, i) < s.len() ==> ws(s[token_end(s, i)]),
    decreases s.len() - i,
{
    if i < s.len() && !ws(s[i]) {
        lemma_token_end(s, i + 1);
    }
}

/// `token_end` is pinned down by exhibiting the first whitespace index.
pub proof fn lemma_token_end_at(s: Seq<char>, i: int, k: int)
    requires
        0 <= i <= k <= s.len(),
        forall|m: int| i <= m < k ==> !ws(s[m]),
        k < s.len() ==> ws(s[k]),
    ensures
        token_end(s, i) == k,
{
    lemma_token_end(s, i);
}

/// Character-for-character string equality.
pub fn str_eq(a: &str, b: &str) -> (r: bool)
    ensures
        r == (a@ == b@),
{
    let an = a.unicode_len();
    let bn = b.unicode_len();
    if an != bn {
        assert(a@ != b@);
        return false;
    }
    let mut i: usize = 0;
    while i < an
        invariant
            an == a@.len(),
            an == b@.len(),
            0 <= i <= an,
            forall|j: int| 0 <= j < i ==> a@[j] == b@[j],
        decreases an - i,
    {
        if a.get_char(i) != b.get_char(i) {
            return false;
        }
        i += 1;
    }
    proof {
        assert(a@ =~= b@);
    }
    true
}

} // verus!
