//! Character-level specifications and verified helpers: whitespace,
//! the trailing (current) token of an input line, substring search, and
//! membership of a tag among the whitespace-delimited tokens of a line.

use vstd::prelude::*;
use vstd::string::StrSliceExecFns;

verus! {

/// Whitespace for tokenization: ASCII space, tab, line feed, carriage return.
pub open spec fn is_space_char(c: char) -> bool {
    c == ' ' || c == '\t' || c == '\n' || c == '\r'
}

/// Executable check matching `is_space_char`.
pub fn is_space(c: char) -> (b: bool)
    ensures
        b == is_space_char(c),
{
    c == ' ' || c == '\t' || c == '\n' || c == '\r'
}

/// Length of the maximal run of non-whitespace characters at the end of `s`:
/// the length of the token the user is currently typing, or 0 if `s` is
/// empty or ends in whitespace.
pub open spec fn trailing_run(s: Seq<char>) -> nat
    decreases s.len(),
{
    if s.len() == 0 || is_space_char(s.last()) {
        0
    } else {
        trailing_run(s.drop_last()) + 1
    }
}

/// Whether the input ends in a partially typed token.
pub open spec fn has_cur_token(s: Seq<char>) -> bool {
    trailing_run(s) > 0
}

/// The partially typed trailing token (empty when there is none).
pub open spec fn cur_token(s: Seq<char>) -> Seq<char> {
    s.subrange(s.len() - trailing_run(s), s.len() as int)
}

/// The committed part of the input, up to but not including the current
/// token; the whole input when there is no current token.
pub open spec fn prefix_of(s: Seq<char>) -> Seq<char> {
    s.subrange(0, s.len() - trailing_run(s))
}

pub proof fn lemma_trailing_run_le_len(s: Seq<char>)
    ensures
        trailing_run(s) <= s.len(),
    decreases s.len(),
{
    if s.len() == 0 || is_space_char(s.last()) {
    } else {
        lemma_trailing_run_le_len(s.drop_last());
    }
}

/// If every character from `k` on is non-whitespace and `k` sits at a
/// whitespace boundary (or at the start), the trailing run starts at `k`.
pub proof fn lemma_trailing_run_from(s: Seq<char>, k: int)
    requires
        0 <= k <= s.len(),
        forall|j: int| k <= j < s.len() ==> !is_space_char(s[j]),
        k > 0 ==> is_space_char(s[k - 1]),
    ensures
        trailing_run(s) == s.len() - k,
    decreases s.len(),
{
    if k < s.len() {
        assert(!is_space_char(s.last()));
        assert(forall|j: int| k <= j < s.len() - 1 ==> s.drop_last()[j] == s[j]);
        lemma_trailing_run_from(s.drop_last(), k);
    }
}

/// Index where the current token starts; equals the length of `s` when
/// there is no current token.
pub fn find_cur_start(s: &str) -> (k: usize)
    ensures
        k == s@.len() - trailing_run(s@),
{
    let n = s.unicode_len();
    let mut k = n;
    while k > 0 && !is_space(s.get_char(k - 1))
        invariant
            k <= n,
            n == s@.len(),
            forall|j: int| k <= j < n ==> !is_space_char(s@[j]),
        decreases k,
    {
        k = k - 1;
    }
    proof {
        lemma_trailing_run_from(s@, k as int);
    }
    k
}

/// `needle` occurs in `hay` starting at position `i`.
pub open spec fn match_at(hay: Seq<char>, needle: Seq<char>, i: int) -> bool {
    &&& 0 <= i
    &&& i + needle.len() <= hay.len()
    &&& hay.subrange(i, i + needle.len()) == needle
}

/// `needle` occurs somewhere in `hay` as a contiguous substring.
pub open spec fn has_substring(hay: Seq<char>, needle: Seq<char>) -> bool {
    exists|i: int| match_at(hay, needle, i)
}

/// The characters of `s` at positions `i..j` equal the characters of `t`.
pub fn range_matches(s: &str, i: usize, j: usize, t: &str) -> (r: bool)
    requires
        i <= j <= s@.len(),
    ensures
        r == (s@.subrange(i as int, j as int) == t@),
{
    let tl = t.unicode_len();
    if j - i != tl {
        proof {
            assert(s@.subrange(i as int, j as int).len() != t@.len());
        }
        return false;
    }
    let mut k: usize = 0;
    while k < tl
        invariant
            k <= tl,
            i + tl == j <= s@.len(),
            tl == t@.len(),
            forall|m: int| 0 <= m < k ==> s@[i + m] == t@[m],
        decreases tl - k,
    {
        if s.get_char(i + k) != t.get_char(k) {
            proof {
                assert(s@.subrange(i as int, j as int)[k as int] != t@[k as int]);
            }
            return false;
        }
        k = k + 1;
    }
    proof {
        assert(s@.subrange(i as int, j as int) =~= t@);
    }
    true
}

/// Substring search: whether `needle` occurs contiguously in `hay`.
pub fn str_has_substring(hay: &str, needle: &str) -> (b: bool)
    ensures
        b == has_substring(hay@, needle@),
{
    let hl = hay.unicode_len();
    let nl = needle.unicode_len();
    if nl > hl {
        proof {
            assert(forall|i: int| !match_at(hay@, needle@, i));
        }
        return false;
    }
    if nl == 0 {
        proof {
            assert(hay@.subrange(0, 0) =~= needle@);
            assert(match_at(hay@, needle@, 0));
        }
        return true;
    }
    let mut i: usize = 0;
    while i <= hl - nl
        invariant
            0 < nl <= hl,
            hl == hay@.len(),
            nl == needle@.len(),
            i <= hl - nl + 1,
            forall|m: int| 0 <= m < i ==> !match_at(hay@, needle@, m),
        decreases hl - i,
    {
        if range_matches(hay, i, i + nl, needle) {
            proof {
                assert(match_at(hay@, needle@, i as int));
            }
            return true;
        }
        i = i + 1;
    }
    proof {
        assert(forall|m: int| match_at(hay@, needle@, m) ==> 0 <= m < i);
    }
    false
}

/// Positions `i..j` of `s` hold a whitespace-delimited token: a nonempty
/// run of non-whitespace characters bounded by whitespace or by the ends
/// of `s`.
pub open spec fn is_token_at(s: Seq<char>, i: int, j: int) -> bool {
    &&& 0 <= i < j <= s.len()
    &&& forall|k: int| i <= k < j ==> !is_space_char(s[k])
    &&& i == 0 || is_space_char(s[i - 1])
    &&& j == s.len() || is_space_char(s[j])
}

/// `t` appears among the whitespace-delimited tokens of `s`.
pub open spec fn used_in(s: Seq<char>, t: Seq<char>) -> bool {
    exists|i: int, j: int| is_token_at(s, i, j) && s.subrange(i, j) == t
}

/// A token's end is determined by its start: tokens are maximal runs.
proof fn lemma_token_end_unique(s: Seq<char>, i: int, j1: int, j2: int)
    requires
        is_token_at(s, i, j1),
        is_token_at(s, i, j2),
    ensures
        j1 == j2,
{
    if j1 < j2 {
        assert(!is_space_char(s[j1]));
    }
    if j2 < j1 {
        assert(!is_space_char(s[j2]));
    }
}

/// Whether `tag` appears among the whitespace-delimited tokens of `input`.
pub fn is_used_token(input: &str, tag: &str) -> (b: bool)
    ensures
        b == used_in(input@, tag@),
{
    let n = input.unicode_len();
    let mut p: usize = 0;
    while p < n
        invariant
            p <= n,
            n == input@.len(),
            forall|i: int, j: int| is_token_at(input@, i, j) && i < p
                ==> input@.subrange(i, j) != tag@,
        decreases n - p,
    {
        let c = input.get_char(p);
        if is_space(c) {
            // no token can start on a whitespace character
            p = p + 1;
        } else if p > 0 && !is_space(input.get_char(p - 1)) {
            // inside a run: the run's token was already compared at its start
            p = p + 1;
        } else {
            // `p` starts a token; find where the run ends
            let mut j: usize = p + 1;
            while j < n && !is_space(input.get_char(j))
                invariant
                    p < j <= n,
                    n == input@.len(),
                    forall|k: int| p <= k < j ==> !is_space_char(input@[k]),
                decreases n - j,
            {
                j = j + 1;
            }
            proof {
                assert(is_token_at(input@, p as int, j as int));
            }
            if range_matches(input, p, j, tag) {
                proof {
                    assert(is_token_at(input@, p as int, j as int)
                        && input@.subrange(p as int, j as int) == tag@);
                }
                return true;
            }
            proof {
                assert forall|i: int, jj: int|
                    is_token_at(input@, i, jj) && i < j implies input@.subrange(i, jj)
                    != tag@ by {
                    if p <= i {
                        if i == p {
                            lemma_token_end_unique(input@, i, jj, j as int);
                        } else {
                            assert(!is_space_char(input@[i - 1]));
                        }
                    }
                }
            }
            p = j;
        }
    }
    proof {
        assert(forall|i: int, j: int| is_token_at(input@, i, j) ==> i < p);
    }
    false
}

} // verus!
