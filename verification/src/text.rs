//! Text primitives the scanner's parsers are specified with: ASCII
//! whitespace trimming, substring search, and newline splitting.
//!
//! Everything here is specified over `Seq<char>` views and implemented
//! with the character-level string operations of vstd.

use vstd::prelude::*;

verus! {

/// The whitespace characters recognised when trimming input lines:
/// space and the ASCII control characters tab through carriage return.
pub open spec fn is_space_char(c: char) -> bool {
    c == ' ' || c == '\t' || c == '\n' || c == '\u{b}' || c == '\u{c}' || c == '\r'
}

/// Executable test for [`is_space_char`].
pub fn is_space(c: char) -> (r: bool)
    ensures
        r == is_space_char(c),
{
    c == ' ' || c == '\t' || c == '\n' || c == '\u{b}' || c == '\u{c}' || c == '\r'
}

/// `s` with leading whitespace removed.
pub open spec fn trim_front(s: Seq<char>) -> Seq<char>
    decreases s.len(),
{
    if s.len() > 0 && is_space_char(s[0]) {
        trim_front(s.drop_first())
    } else {
        s
    }
}

/// `s` with trailing whitespace removed.
pub open spec fn trim_back(s: Seq<char>) -> Seq<char>
    decreases s.len(),
{
    if s.len() > 0 && is_space_char(s.last()) {
        trim_back(s.drop_last())
    } else {
        s
    }
}

/// `s` with whitespace removed from both ends.
pub open spec fn trim_spec(s: Seq<char>) -> Seq<char> {
    trim_back(trim_front(s))
}

proof fn lemma_trim_front_at(s: Seq<char>, a: int)
    requires
        0 <= a <= s.len(),
        forall|k: int| 0 <= k < a ==> is_space_char(#[trigger] s[k]),
        a == s.len() || !is_space_char(s[a]),
    ensures
        trim_front(s) == s.subrange(a, s.len() as int),
    decreases a,
{
    if a == 0 {
        if s.len() > 0 && is_space_char(s[0]) {
            assert(false);
        }
        assert(s.subrange(0, s.len() as int) =~= s);
    } else {
        let t = s.drop_first();
        assert forall|k: int| 0 <= k < a - 1 implies is_space_char(#[trigger] t[k]) by {
            assert(t[k] == s[k + 1]);
        }
        lemma_trim_front_at(t, a - 1);
        assert(t.subrange(a - 1, t.len() as int) =~= s.subrange(a, s.len() as int));
    }
}

proof fn lemma_trim_back_at(s: Seq<char>, b: int)
    requires
        0 <= b <= s.len(),
        forall|k: int| b <= k < s.len() ==> is_space_char(#[trigger] s[k]),
        b == 0 || !is_space_char(s[b - 1]),
    ensures
        trim_back(s) == s.subrange(0, b),
    decreases s.len() - b,
{
    if b == s.len() {
        if s.len() > 0 && is_space_char(s.last()) {
            assert(false);
        }
        assert(s.subrange(0, s.len() as int) =~= s);
    } else {
        let t = s.drop_last();
        lemma_trim_back_at(t, b);
        assert(t.subrange(0, b) =~= s.subrange(0, b));
    }
}

/// Removes whitespace from both ends of `s`, as [`trim_spec`] describes.
pub fn trim_str(s: &str) -> (r: String)
    ensures
        r@ == trim_spec(s@),
{
    let n = s.unicode_len();
    let mut a: usize = 0;
    while a < n && is_space(s.get_char(a))
        invariant
            n == s@.len(),
            a <= n,
            forall|k: int| 0 <= k < a ==> is_space_char(#[trigger] s@[k]),
        decreases n - a,
    {
        a = a + 1;
    }
    let mut b: usize = n;
    while b > a && is_space(s.get_char(b - 1))
        invariant
            n == s@.len(),
            a <= b <= n,
            forall|k: int| b <= k < n ==> is_space_char(#[trigger] s@[k]),
        decreases b,
    {
        b = b - 1;
    }
    proof {
        lemma_trim_front_at(s@, a as int);
        let mid = s@.subrange(a as int, n as int);
        assert forall|k: int| b - a <= k < mid.len() implies is_space_char(#[trigger] mid[k]) by {
            assert(mid[k] == s@[k + a]);
        }
        if b > a {
            assert(mid[b - a - 1] == s@[b as int - 1]);
        }
        lemma_trim_back_at(mid, b - a);
        assert(mid.subrange(0, b - a) =~= s@.subrange(a as int, b as int));
    }
    let piece = s.substring_char(a, b);
    piece.to_owned()
}

/// True when `n` occurs in `h` starting at index `i`.
pub open spec fn matches_at(h: Seq<char>, n: Seq<char>, i: int) -> bool {
    0 <= i && i + n.len() <= h.len() && h.subrange(i, i + n.len() as int) == n
}

/// True when `n` occurs somewhere in `h`.
pub open spec fn contains_seq(h: Seq<char>, n: Seq<char>) -> bool {
    exists|i: int| matches_at(h, n, i)
}

/// True when `p` is a prefix of `s`.
pub open spec fn starts_with_seq(s: Seq<char>, p: Seq<char>) -> bool {
    p.len() <= s.len() && s.subrange(0, p.len() as int) == p
}

/// Compares the characters of `needle` against `h` at offset `i`.
fn match_at(h: &str, needle: &str, i: usize) -> (r: bool)
    requires
        i + needle@.len() <= h@.len(),
        h@.len() <= usize::MAX,
    ensures
        r == matches_at(h@, needle@, i as int),
{
    let nl = needle.unicode_len();
    let mut j: usize = 0;
    while j < nl
        invariant
            nl == needle@.len(),
            i + nl <= h@.len(),
            h@.len() <= usize::MAX,
            j <= nl,
            forall|k: int| 0 <= k < j ==> h@[i + k] == needle@[k],
        decreases nl - j,
    {
        if h.get_char(i + j) != needle.get_char(j) {
            proof {
                let sub = h@.subrange(i as int, i as int + nl as int);
                assert(sub[j as int] == h@[i + j]);
            }
            return false;
        }
        j = j + 1;
    }
    proof {
        assert(h@.subrange(i as int, i as int + nl as int) =~= needle@);
    }
    true
}

/// Substring search, as [`contains_seq`] describes.
pub fn str_contains(h: &str, needle: &str) -> (r: bool)
    ensures
        r == contains_seq(h@, needle@),
{
    let hl = h.unicode_len();
    let nl = needle.unicode_len();
    if nl > hl {
        proof {
            assert forall|i: int| !matches_at(h@, needle@, i) by {}
        }
        return false;
    }
    if nl == 0 {
        proof {
            assert(h@.subrange(0, 0) =~= needle@);
            assert(matches_at(h@, needle@, 0));
        }
        return true;
    }
    let mut i: usize = 0;
    while i <= hl - nl
        invariant
            hl == h@.len(),
            nl == needle@.len(),
            0 < nl <= hl,
            i <= hl - nl + 1,
            forall|k: int| 0 <= k < i ==> !matches_at(h@, needle@, k),
        decreases hl - nl + 1 - i,
    {
        if match_at(h, needle, i) {
            return true;
        }
        i = i + 1;
    }
    proof {
        assert forall|k: int| !matches_at(h@, needle@, k) by {
            if 0 <= k < i {
            }
        }
    }
    false
}

/// Prefix test, as [`starts_with_seq`] describes.
pub fn str_starts_with(s: &str, prefix: &str) -> (r: bool)
    ensures
        r == starts_with_seq(s@, prefix@),
{
    let pl = prefix.unicode_len();
    let sl = s.unicode_len();
    if pl > sl {
        return false;
    }
    match_at(s, prefix, 0)
}

/// The index of the first occurrence of `c` in `s`, or `s.len()` if
/// there is none.
pub open spec fn first_index_of(s: Seq<char>, c: char) -> nat
    decreases s.len(),
{
    if s.len() == 0 {
        0
    } else if s[0] == c {
        0
    } else {
        1 + first_index_of(s.drop_first(), c)
    }
}

/// The index of the last occurrence of `c` in `s`, or `-1` if there is
/// none.
pub open spec fn last_index_of(s: Seq<char>, c: char) -> int
    decreases s.len(),
{
    if s.len() == 0 {
        -1
    } else if s.last() == c {
        s.len() - 1
    } else {
        last_index_of(s.drop_last(), c)
    }
}

/// What [`first_index_of`] returns: the position of `c`, with nothing
/// equal to `c` before it.
pub proof fn lemma_first_index_of(s: Seq<char>, c: char)
    ensures
        first_index_of(s, c) <= s.len(),
        forall|k: int| 0 <= k < first_index_of(s, c) ==> s[k] != c,
        first_index_of(s, c) < s.len() ==> s[first_index_of(s, c) as int] == c,
    decreases s.len(),
{
    if s.len() == 0 {
    } else if s[0] == c {
    } else {
        let t = s.drop_first();
        lemma_first_index_of(t, c);
        assert forall|k: int| 0 <= k < first_index_of(s, c) implies s[k] != c by {
            if k > 0 {
                assert(t[k - 1] == s[k]);
            }
        }
        if first_index_of(s, c) < s.len() {
            assert(t[first_index_of(s, c) - 1] == s[first_index_of(s, c) as int]);
        }
    }
}

/// Pins [`first_index_of`] to a witnessed position.
pub proof fn lemma_first_index_of_at(s: Seq<char>, c: char, i: int)
    requires
        0 <= i <= s.len(),
        forall|k: int| 0 <= k < i ==> #[trigger] s[k] != c,
        i < s.len() ==> s[i] == c,
    ensures
        first_index_of(s, c) == i,
{
    lemma_first_index_of(s, c);
    let f = first_index_of(s, c) as int;
    if f < i {
        assert(s[f] != c);
        assert(false);
    }
    if f > i {
        assert(s[i] != c);
        assert(false);
    }
}

/// Pins [`last_index_of`] to a witnessed position (`-1` when `c` does
/// not occur).
pub proof fn lemma_last_index_of_at(s: Seq<char>, c: char, p: int)
    requires
        -1 <= p < s.len(),
        p >= 0 ==> s[p] == c,
        forall|k: int| p < k < s.len() ==> #[trigger] s[k] != c,
    ensures
        last_index_of(s, c) == p,
    decreases s.len(),
{
    if s.len() == 0 {
    } else if s.last() == c {
        assert(p == s.len() - 1);
    } else {
        assert(s[s.len() - 1] != c);
        assert(p < s.len() - 1);
        let t = s.drop_last();
        assert forall|k: int| p < k < t.len() implies #[trigger] t[k] != c by {
            assert(t[k] == s[k]);
        }
        lemma_last_index_of_at(t, c, p);
    }
}

/// A line with a trailing carriage return removed.
pub open spec fn strip_cr(l: Seq<char>) -> Seq<char> {
    if l.len() > 0 && l.last() == '\r' {
        l.drop_last()
    } else {
        l
    }
}

/// The lines of `s`: segments between newlines, each with a trailing
/// carriage return removed; a final newline does not open an empty
/// trailing line.
pub open spec fn split_lines(s: Seq<char>) -> Seq<Seq<char>>
    decreases s.len(),
{
    if s.len() == 0 {
        Seq::empty()
    } else {
        let i = first_index_of(s, '\n');
        if i >= s.len() {
            seq![s]
        } else {
            seq![strip_cr(s.subrange(0, i as int))] + split_lines(
                s.subrange(i as int + 1, s.len() as int),
            )
        }
    }
}

/// Splits `content` into its lines, as [`split_lines`] describes.
pub fn split_into_lines(content: &str) -> (lines: Vec<String>)
    ensures
        lines.deep_view() == split_lines(content@),
{
    let n = content.unicode_len();
    let mut out: Vec<String> = Vec::new();
    let mut start: usize = 0;
    let mut i: usize = 0;
    proof {
        assert(content@.subrange(0, n as int) =~= content@);
        assert(out.deep_view() + split_lines(content@) =~= split_lines(content@));
    }
    while i < n
        invariant
            n == content@.len(),
            start <= i <= n,
            forall|k: int| start <= k < i ==> #[trigger] content@[k] != '\n',
            split_lines(content@) == out.deep_view() + split_lines(
                content@.subrange(start as int, n as int),
            ),
        decreases n - i,
    {
        let c = content.get_char(i);
        if c == '\n' {
            let end = if i > start && content.get_char(i - 1) == '\r' {
                i - 1
            } else {
                i
            };
            let line = content.substring_char(start, end).to_owned();
            proof {
                let rem = content@.subrange(start as int, n as int);
                assert forall|k: int| 0 <= k < i - start implies #[trigger] rem[k] != '\n' by {
                    assert(rem[k] == content@[k + start]);
                }
                assert(rem[i - start] == content@[i as int]);
                lemma_first_index_of_at(rem, '\n', i - start);
                assert(rem.subrange(0, i - start) =~= content@.subrange(start as int, i as int));
                if i > start && content@[i as int - 1] == '\r' {
                    assert(line@ =~= strip_cr(content@.subrange(start as int, i as int)));
                } else {
                    assert(line@ =~= strip_cr(content@.subrange(start as int, i as int)));
                }
                assert(rem.subrange(i - start + 1, rem.len() as int) =~= content@.subrange(
                    i as int + 1,
                    n as int,
                ));
                assert(split_lines(rem) == seq![line@] + split_lines(
                    content@.subrange(i as int + 1, n as int),
                ));
            }
            let ghost old_out = out.deep_view();
            out.push(line);
            proof {
                assert(out.deep_view() =~= old_out.push(line@));
                assert(out.deep_view() + split_lines(content@.subrange(i as int + 1, n as int))
                    =~= old_out + (seq![line@] + split_lines(
                    content@.subrange(i as int + 1, n as int),
                )));
            }
            start = i + 1;
        }
        i = i + 1;
    }
    if start < n {
        let line = content.substring_char(start, n).to_owned();
        proof {
            let rem = content@.subrange(start as int, n as int);
            assert forall|k: int| 0 <= k < rem.len() implies #[trigger] rem[k] != '\n' by {
                assert(rem[k] == content@[k + start]);
            }
            lemma_first_index_of_at(rem, '\n', rem.len() as int);
            assert(split_lines(rem) == seq![rem]);
            assert(line@ =~= rem);
        }
        let ghost old_out = out.deep_view();
        out.push(line);
        proof {
            assert(out.deep_view() =~= old_out.push(line@));
            assert(out.deep_view() =~= old_out + seq![line@]);
        }
    } else {
        proof {
            assert(content@.subrange(start as int, n as int).len() == 0);
            assert(out.deep_view() + split_lines(content@.subrange(start as int, n as int))
                =~= out.deep_view());
        }
    }
    out
}

} // verus!
