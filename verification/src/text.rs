//! Character-level text helpers used by the configuration and scanning logic:
//! comparison, suffix tests, splitting at a separator and trimming whitespace.

use vstd::prelude::*;

verus! {

/// Whether `c` is whitespace in the sense of `char::is_whitespace`: it has
/// the Unicode `White_Space` property, which these 25 code points have.
pub open spec fn white_space(c: char) -> bool {
    ||| ('\u{9}' <= c && c <= '\u{d}')
    ||| c == ' '
    ||| c == '\u{85}'
    ||| c == '\u{a0}'
    ||| c == '\u{1680}'
    ||| ('\u{2000}' <= c && c <= '\u{200a}')
    ||| c == '\u{2028}'
    ||| c == '\u{2029}'
    ||| c == '\u{202f}'
    ||| c == '\u{205f}'
    ||| c == '\u{3000}'
}

/// Whether `c` is whitespace, as `char::is_whitespace`.
pub fn is_whitespace(c: char) -> (r: bool)
    ensures
        r == white_space(c),
{
    ('\u{9}' <= c && c <= '\u{d}') || c == ' ' || c == '\u{85}' || c == '\u{a0}' || c == '\u{1680}'
        || ('\u{2000}' <= c && c <= '\u{200a}') || c == '\u{2028}' || c == '\u{2029}' || c
        == '\u{202f}' || c == '\u{205f}' || c == '\u{3000}'
}

/// `s` ends with `suffix`.
pub open spec fn has_suffix(s: Seq<char>, suffix: Seq<char>) -> bool {
    suffix.len() <= s.len() && s.subrange(s.len() - suffix.len(), s.len() as int) == suffix
}

/// Index of the first occurrence of `c` in `s`, or `s.len()` when there is none.
pub open spec fn first_index(s: Seq<char>, c: char) -> nat
    decreases s.len(),
{
    if s.len() == 0 {
        0
    } else if s[0] == c {
        0
    } else {
        1 + first_index(s.drop_first(), c)
    }
}

/// Index just after the last occurrence of `c` in `s`, or 0 when there is none.
pub open spec fn after_last_index(s: Seq<char>, c: char) -> nat
    decreases s.len(),
{
    if s.len() == 0 {
        0
    } else if s.last() == c {
        s.len()
    } else {
        after_last_index(s.drop_last(), c)
    }
}

/// The part of `s` before the first `c` (all of `s` when it holds no `c`);
/// this is the first item that `str::split` yields.
pub open spec fn first_segment(s: Seq<char>, c: char) -> Seq<char> {
    s.take(first_index(s, c) as int)
}

/// The part of `s` after the last `c` (all of `s` when it holds no `c`);
/// this is the last item that `str::split` yields.
pub open spec fn last_segment(s: Seq<char>, c: char) -> Seq<char> {
    s.skip(after_last_index(s, c) as int)
}

/// `s` without its trailing whitespace.
pub open spec fn trim_end_seq(s: Seq<char>) -> Seq<char>
    decreases s.len(),
{
    if s.len() > 0 && white_space(s.last()) {
        trim_end_seq(s.drop_last())
    } else {
        s
    }
}

/// `s` without its leading whitespace.
pub open spec fn trim_start_seq(s: Seq<char>) -> Seq<char>
    decreases s.len(),
{
    if s.len() > 0 && white_space(s[0]) {
        trim_start_seq(s.drop_first())
    } else {
        s
    }
}

/// `s` without leading and trailing whitespace.
pub open spec fn trim_seq(s: Seq<char>) -> Seq<char> {
    trim_start_seq(trim_end_seq(s))
}


/// The pieces of `s` between occurrences of `c`, as `str::split` with a
/// character pattern yields them (always at least one piece).
pub open spec fn split_seq(s: Seq<char>, c: char) -> Seq<Seq<char>>
    decreases s.len(),
{
    let i = first_index(s, c);
    if i >= s.len() {
        seq![s]
    } else {
        seq![s.take(i as int)] + split_seq(s.skip(i + 1 as int), c)
    }
}

/// The pieces joined with `c` between neighbours, as `join` on a slice of strings.
pub open spec fn join_seq(parts: Seq<Seq<char>>, c: char) -> Seq<char>
    decreases parts.len(),
{
    if parts.len() == 0 {
        Seq::empty()
    } else if parts.len() == 1 {
        parts[0]
    } else {
        parts[0] + seq![c] + join_seq(parts.drop_first(), c)
    }
}

/// Views of a vector of strings.
pub open spec fn string_views(v: Seq<String>) -> Seq<Seq<char>> {
    v.map_values(|x: String| x@)
}

pub proof fn lemma_first_index_bound(s: Seq<char>, c: char)
    ensures
        first_index(s, c) <= s.len(),
        first_index(s, c) < s.len() ==> s[first_index(s, c) as int] == c,
        forall|j: int| 0 <= j < first_index(s, c) ==> s[j] != c,
    decreases s.len(),
{
    if s.len() > 0 && s[0] != c {
        lemma_first_index_bound(s.drop_first(), c);
        assert forall|j: int| 0 <= j < first_index(s, c) implies s[j] != c by {
            if j > 0 {
                assert(s[j] == s.drop_first()[j - 1]);
            }
        }
    }
}

proof fn lemma_first_index_is(s: Seq<char>, c: char, i: int)
    requires
        0 <= i <= s.len(),
        i == s.len() || s[i] == c,
        forall|j: int| 0 <= j < i ==> s[j] != c,
    ensures
        first_index(s, c) == i,
    decreases i,
{
    if i > 0 {
        let t = s.drop_first();
        assert forall|j: int| 0 <= j < i - 1 implies t[j] != c by {
            assert(t[j] == s[j + 1]);
        }
        lemma_first_index_is(t, c, i - 1);
    }
}

pub proof fn lemma_after_last_index_bound(s: Seq<char>, c: char)
    ensures
        after_last_index(s, c) <= s.len(),
        after_last_index(s, c) > 0 ==> s[after_last_index(s, c) - 1] == c,
        forall|j: int| after_last_index(s, c) <= j < s.len() ==> s[j] != c,
    decreases s.len(),
{
    if s.len() > 0 && s.last() != c {
        let t = s.drop_last();
        lemma_after_last_index_bound(t, c);
        assert forall|j: int| after_last_index(s, c) <= j < s.len() implies s[j] != c by {
            if j < s.len() - 1 {
                assert(s[j] == t[j]);
            }
        }
    }
}

proof fn lemma_after_last_index_is(s: Seq<char>, c: char, i: int)
    requires
        0 <= i <= s.len(),
        i == 0 || s[i - 1] == c,
        forall|j: int| i <= j < s.len() ==> s[j] != c,
    ensures
        after_last_index(s, c) == i,
    decreases s.len(),
{
    if s.len() > 0 && i < s.len() {
        lemma_after_last_index_is(s.drop_last(), c, i);
    }
}


/// Splitting never yields an empty list of pieces, and no piece holds the separator.
pub proof fn lemma_split_pieces(s: Seq<char>, c: char)
    ensures
        split_seq(s, c).len() >= 1,
        forall|k: int, j: int|
            0 <= k < split_seq(s, c).len() && 0 <= j < split_seq(s, c)[k].len()
                ==> split_seq(s, c)[k][j] != c,
    decreases s.len(),
{
    lemma_first_index_bound(s, c);
    let i = first_index(s, c);
    if i < s.len() {
        let rest = split_seq(s.skip(i + 1 as int), c);
        lemma_split_pieces(s.skip(i + 1 as int), c);
        let parts = split_seq(s, c);
        assert forall|k: int, j: int| 0 <= k < parts.len() && 0 <= j < parts[k].len()
            implies parts[k][j] != c by {
            if k > 0 {
                assert(parts[k] == rest[k - 1]);
            }
        }
    }
}

/// Joining the pieces of a split with the separator gives back the text that was split.
pub proof fn lemma_join_split(s: Seq<char>, c: char)
    ensures
        join_seq(split_seq(s, c), c) == s,
    decreases s.len(),
{
    lemma_first_index_bound(s, c);
    let i = first_index(s, c);
    if i < s.len() {
        let rest = split_seq(s.skip(i + 1 as int), c);
        lemma_split_pieces(s.skip(i + 1 as int), c);
        lemma_join_split(s.skip(i + 1 as int), c);
        let parts = split_seq(s, c);
        assert(parts.drop_first() =~= rest);
        assert(parts[0] + seq![c] + s.skip(i + 1 as int) =~= s);
    }
}


/// The text before the first `c` is a prefix of `s` holding no `c`, and
/// unless it is all of `s` a `c` follows it in `s`.
pub proof fn lemma_first_segment(s: Seq<char>, c: char)
    ensures
        first_segment(s, c) == s.take(first_segment(s, c).len() as int),
        !first_segment(s, c).contains(c),
        first_segment(s, c).len() == s.len() || s[first_segment(s, c).len() as int] == c,
{
    lemma_first_index_bound(s, c);
    let r = first_segment(s, c);
    assert(r.len() == first_index(s, c));
    if r.contains(c) {
        let k = choose|k: int| 0 <= k < r.len() && r[k] == c;
        assert(s[k] == c);
    }
}

/// The text after the last `c` is a suffix of `s` holding no `c`, and
/// unless it is all of `s` a `c` precedes it in `s`.
pub proof fn lemma_last_segment(s: Seq<char>, c: char)
    ensures
        last_segment(s, c) == s.skip(s.len() - last_segment(s, c).len()),
        !last_segment(s, c).contains(c),
        last_segment(s, c).len() == s.len() || s[s.len() - last_segment(s, c).len() - 1] == c,
{
    lemma_after_last_index_bound(s, c);
    let r = last_segment(s, c);
    let a = after_last_index(s, c);
    assert(r.len() == s.len() - a);
    if r.contains(c) {
        let k = choose|k: int| 0 <= k < r.len() && r[k] == c;
        assert(s[a + k] == c);
    }
}

proof fn lemma_trim_end_cut(s: Seq<char>)
    ensures
        trim_end_seq(s).len() <= s.len(),
        trim_end_seq(s) == s.take(trim_end_seq(s).len() as int),
        trim_end_seq(s).len() == 0 || !white_space(trim_end_seq(s).last()),
        forall|j: int| trim_end_seq(s).len() <= j < s.len() ==> white_space(#[trigger] s[j]),
    decreases s.len(),
{
    if s.len() > 0 && white_space(s.last()) {
        let t = s.drop_last();
        lemma_trim_end_cut(t);
        assert(s.take(trim_end_seq(t).len() as int) =~= t.take(trim_end_seq(t).len() as int));
        assert forall|j: int| trim_end_seq(s).len() <= j < s.len() implies white_space(#[trigger] s[j]) by {
            if j < s.len() - 1 {
                assert(s[j] == t[j]);
            }
        }
    } else {
        assert(s.take(s.len() as int) =~= s);
    }
}

proof fn lemma_trim_start_cut(s: Seq<char>)
    ensures
        trim_start_seq(s).len() <= s.len(),
        trim_start_seq(s) == s.skip(s.len() - trim_start_seq(s).len()),
        trim_start_seq(s).len() == 0 || !white_space(trim_start_seq(s)[0]),
        forall|j: int| 0 <= j < s.len() - trim_start_seq(s).len() ==> white_space(#[trigger] s[j]),
    decreases s.len(),
{
    if s.len() > 0 && white_space(s[0]) {
        let t = s.drop_first();
        lemma_trim_start_cut(t);
        assert(s.skip(s.len() - trim_start_seq(t).len()) =~= t.skip(t.len() - trim_start_seq(t).len()));
        assert forall|j: int| 0 <= j < s.len() - trim_start_seq(s).len() implies white_space(#[trigger] s[j]) by {
            if j > 0 {
                assert(s[j] == t[j - 1]);
            }
        }
    } else {
        assert(s.skip(0) =~= s);
    }
}

/// Trimming keeps a stretch of `s`: everything cut off at either end is
/// whitespace, and what is kept neither starts nor ends with whitespace.
pub proof fn lemma_trim(s: Seq<char>)
    ensures
        exists|a: int| 0 <= a && a + trim_seq(s).len() <= s.len()
            && #[trigger] s.subrange(a, a + trim_seq(s).len()) == trim_seq(s)
            && (forall|j: int| 0 <= j < a ==> white_space(#[trigger] s[j]))
            && (forall|j: int| a + trim_seq(s).len() <= j < s.len() ==> white_space(#[trigger] s[j])),
        trim_seq(s).len() == 0 || (!white_space(trim_seq(s)[0]) && !white_space(trim_seq(s).last())),
{
    let e = trim_end_seq(s);
    lemma_trim_end_cut(s);
    lemma_trim_start_cut(e);
    let r = trim_seq(s);
    let a = e.len() - r.len();
    assert(s.subrange(a, a + r.len()) =~= r);
    assert forall|j: int| 0 <= j < a implies white_space(#[trigger] s[j]) by {
        assert(s[j] == e[j]);
    }
    assert forall|j: int| a + r.len() <= j < s.len() implies white_space(#[trigger] s[j]) by {}
    if r.len() > 0 {
        assert(r.last() == e.last());
    }
}

/// Whether two string slices hold the same characters.
pub fn str_equal(a: &str, b: &str) -> (r: bool)
    ensures
        r == (a@ == b@),
{
    let n = a.unicode_len();
    let m = b.unicode_len();
    if n != m {
        return false;
    }
    let mut i: usize = 0;
    while i < n
        invariant
            n == a@.len(),
            m == b@.len(),
            n == m,
            i <= n,
            forall|j: int| 0 <= j < i ==> a@[j] == b@[j],
        decreases n - i,
    {
        if a.get_char(i) != b.get_char(i) {
            return false;
        }
        i = i + 1;
    }
    assert(a@ =~= b@);
    true
}

/// Whether `s` ends with `suffix`, as `str::ends_with` with a string pattern.
pub fn ends_with(s: &str, suffix: &str) -> (r: bool)
    ensures
        r == has_suffix(s@, suffix@),
{
    let n = s.unicode_len();
    let m = suffix.unicode_len();
    if m > n {
        return false;
    }
    let off = n - m;
    let mut i: usize = 0;
    while i < m
        invariant
            n == s@.len(),
            m == suffix@.len(),
            m <= n,
            off == n - m,
            i <= m,
            forall|j: int| 0 <= j < i ==> s@[off + j] == suffix@[j],
        decreases m - i,
    {
        if s.get_char(off + i) != suffix.get_char(i) {
            assert(s@.subrange(off as int, n as int)[i as int] != suffix@[i as int]);
            return false;
        }
        i = i + 1;
    }
    assert(s@.subrange(off as int, n as int) =~= suffix@);
    true
}

/// The part of `s` before the first `c`, as the first item of `s.split(c)`.
pub fn first_segment_of(s: &str, c: char) -> (r: String)
    ensures
        r@ == first_segment(s@, c),
{
    let n = s.unicode_len();
    let mut i: usize = 0;
    while i < n
        invariant
            n == s@.len(),
            i <= n,
            forall|j: int| 0 <= j < i ==> s@[j] != c,
        ensures
            i <= n,
            i == n || s@[i as int] == c,
            forall|j: int| 0 <= j < i ==> s@[j] != c,
        decreases n - i,
    {
        if s.get_char(i) == c {
            break;
        }
        i = i + 1;
    }
    proof {
        lemma_first_index_is(s@, c, i as int);
    }
    String::from_str(s.substring_char(0, i))
}

/// The part of `s` after the last `c`, as the last item of `s.split(c)`.
pub fn last_segment_of(s: &str, c: char) -> (r: String)
    ensures
        r@ == last_segment(s@, c),
{
    let n = s.unicode_len();
    let mut i: usize = n;
    while i > 0
        invariant
            n == s@.len(),
            i <= n,
            forall|j: int| i <= j < n ==> s@[j] != c,
        ensures
            i <= n,
            i == 0 || s@[i - 1] == c,
            forall|j: int| i <= j < n ==> s@[j] != c,
        decreases i,
    {
        if s.get_char(i - 1) == c {
            break;
        }
        i = i - 1;
    }
    proof {
        lemma_after_last_index_is(s@, c, i as int);
    }
    String::from_str(s.substring_char(i, n))
}

/// Index at which the trailing whitespace of `s` begins.
fn trailing_cut(s: &str) -> (k: usize)
    ensures
        k <= s@.len(),
        trim_end_seq(s@) == s@.take(k as int),
{
    let n = s.unicode_len();
    let mut k: usize = n;
    assert(s@.take(n as int) =~= s@);
    while k > 0
        invariant
            n == s@.len(),
            k <= n,
            trim_end_seq(s@) == trim_end_seq(s@.take(k as int)),
        ensures
            k <= n,
            trim_end_seq(s@) == trim_end_seq(s@.take(k as int)),
            k == 0 || !white_space(s@[k - 1]),
        decreases k,
    {
        let ch = s.get_char(k - 1);
        if !is_whitespace(ch) {
            break;
        }
        assert(s@.take(k as int).drop_last() =~= s@.take(k - 1));
        k = k - 1;
    }
    if k == 0 {
        assert(s@.take(0) =~= Seq::<char>::empty());
    }
    k
}

/// Index at which `s` stops being whitespace, looking no further than `k`.
fn leading_cut(s: &str, k: usize) -> (j: usize)
    requires
        k <= s@.len(),
    ensures
        j <= k,
        trim_start_seq(s@.take(k as int)) == s@.subrange(j as int, k as int),
{
    let mut j: usize = 0;
    assert(s@.take(k as int) =~= s@.subrange(0, k as int));
    while j < k
        invariant
            k <= s@.len(),
            j <= k,
            trim_start_seq(s@.take(k as int)) == trim_start_seq(s@.subrange(j as int, k as int)),
        ensures
            j <= k,
            trim_start_seq(s@.take(k as int)) == trim_start_seq(s@.subrange(j as int, k as int)),
            j == k || !white_space(s@[j as int]),
        decreases k - j,
    {
        let ch = s.get_char(j);
        if !is_whitespace(ch) {
            break;
        }
        assert(s@.subrange(j as int, k as int).drop_first() =~= s@.subrange(j + 1, k as int));
        j = j + 1;
    }
    if j == k {
        assert(s@.subrange(j as int, k as int) =~= Seq::<char>::empty());
    }
    j
}

/// `s` without trailing whitespace, as `str::trim_end`.
pub fn trim_end(s: &str) -> (r: String)
    ensures
        r@ == trim_end_seq(s@),
{
    let k = trailing_cut(s);
    String::from_str(s.substring_char(0, k))
}

/// `s` without leading and trailing whitespace, as `str::trim`.
pub fn trim(s: &str) -> (r: String)
    ensures
        r@ == trim_seq(s@),
{
    let k = trailing_cut(s);
    let j = leading_cut(s, k);
    String::from_str(s.substring_char(j, k))
}

/// The pieces of `s` between occurrences of `c`, as `s.split(c)` collected.
pub fn split_at(s: &str, c: char) -> (r: Vec<String>)
    ensures
        string_views(r@) == split_seq(s@, c),
{
    let n = s.unicode_len();
    let mut res: Vec<String> = Vec::new();
    let mut start: usize = 0;
    let mut i: usize = 0;
    assert(s@.skip(0) =~= s@);
    while i < n
        invariant
            n == s@.len(),
            start <= i <= n,
            forall|j: int| start <= j < i ==> s@[j] != c,
            string_views(res@) + split_seq(s@.skip(start as int), c) == split_seq(s@, c),
        decreases n - i,
    {
        if s.get_char(i) == c {
            let ghost rest = s@.skip(start as int);
            proof {
                assert forall|j: int| 0 <= j < i - start implies rest[j] != c by {
                    assert(rest[j] == s@[start + j]);
                }
                lemma_first_index_is(rest, c, i - start);
                assert(rest.take(i - start) =~= s@.subrange(start as int, i as int));
                assert(rest.skip(i - start + 1) =~= s@.skip(i + 1));
            }
            let piece = String::from_str(s.substring_char(start, i));
            let ghost before = string_views(res@);
            res.push(piece);
            proof {
                assert(string_views(res@) =~= before.push(piece@));
                assert(before + split_seq(rest, c) =~= before.push(piece@) + split_seq(
                    s@.skip(i + 1),
                    c,
                ));
            }
            start = i + 1;
        }
        i = i + 1;
    }
    let ghost rest = s@.skip(start as int);
    proof {
        assert forall|j: int| 0 <= j < n - start implies rest[j] != c by {
            assert(rest[j] == s@[start + j]);
        }
        lemma_first_index_is(rest, c, n - start);
        assert(rest =~= s@.subrange(start as int, n as int));
    }
    let piece = String::from_str(s.substring_char(start, n));
    let ghost before = string_views(res@);
    res.push(piece);
    proof {
        assert(string_views(res@) =~= before.push(piece@));
        assert(before + split_seq(rest, c) =~= before.push(piece@));
    }
    res
}

} // verus!
