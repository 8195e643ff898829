//! Character-level text handling over `Seq<char>` models of strings.
//!
//! Strings are modelled by their character sequences (`s@`).  The functions
//! here give the meaning of the handful of `str` operations that the quote
//! relay relies on (`trim`, `split`, ASCII case folding, `contains`,
//! `ends_with`) and implement them over character vectors.

use vstd::prelude::*;

verus! {

/// Unicode `White_Space`, the property behind `char::is_whitespace` and
/// therefore `str::trim`.
pub open spec fn is_ws(c: char) -> bool {
    ||| ('\u{9}' <= c && c <= '\u{d}')
    ||| c == ' '
    ||| c == '\u{85}'
    ||| c == '\u{a0}'
    ||| c == '\u{1680}'
    ||| ('\u{2000}' <= c && c <= '\u{200a}')
    ||| c == '\u{2028}'
    ||| c == '\u{2029}'
    ||| c == '\u{202f}'
    ||| c == '\u{205f}'
    ||| c == '\u{3000}'
}

/// `s` without its leading whitespace.
pub open spec fn trim_start(s: Seq<char>) -> Seq<char>
    decreases s.len(),
{
    if s.len() > 0 && is_ws(s[0]) {
        trim_start(s.drop_first())
    } else {
        s
    }
}

/// `s` without its trailing whitespace.
pub open spec fn trim_end(s: Seq<char>) -> Seq<char>
    decreases s.len(),
{
    if s.len() > 0 && is_ws(s.last()) {
        trim_end(s.drop_last())
    } else {
        s
    }
}

/// `str::trim`: `s` without leading and trailing whitespace.
pub open spec fn trim(s: Seq<char>) -> Seq<char> {
    trim_end(trim_start(s))
}

/// `str::split(sep)`: the pieces of `s` between occurrences of `sep`, empty
/// pieces included; there is always at least one piece.
pub open spec fn split(s: Seq<char>, sep: char) -> Seq<Seq<char>>
    decreases s.len(),
{
    if s.len() == 0 {
        seq![Seq::<char>::empty()]
    } else {
        let head = split(s.drop_last(), sep);
        if s.last() == sep {
            head.push(Seq::<char>::empty())
        } else {
            head.update(head.len() - 1, head.last().push(s.last()))
        }
    }
}

/// ASCII lower-casing of one character (`char::to_ascii_lowercase`).
pub open spec fn lower(c: char) -> char {
    if 'A' <= c && c <= 'Z' {
        ((c as u32) + 32) as char
    } else {
        c
    }
}

/// ASCII upper-casing of one character (`char::to_ascii_uppercase`).
pub open spec fn upper(c: char) -> char {
    if 'a' <= c && c <= 'z' {
        ((c as u32) - 32) as char
    } else {
        c
    }
}

/// `str::to_ascii_lowercase`.
pub open spec fn lower_seq(s: Seq<char>) -> Seq<char> {
    s.map_values(|c: char| lower(c))
}

/// `str::to_ascii_uppercase`.
pub open spec fn upper_seq(s: Seq<char>) -> Seq<char> {
    s.map_values(|c: char| upper(c))
}

/// `str::eq_ignore_ascii_case`.
pub open spec fn eq_ignore_case(a: Seq<char>, b: Seq<char>) -> bool {
    lower_seq(a) == lower_seq(b)
}

/// `str::contains` with a string pattern.
pub open spec fn contains_seq(s: Seq<char>, pat: Seq<char>) -> bool {
    exists|i: int| 0 <= i && i + pat.len() <= s.len() && #[trigger] s.subrange(i, i + pat.len()) == pat
}

/// `str::ends_with` with a string pattern.
pub open spec fn ends_with(s: Seq<char>, pat: Seq<char>) -> bool {
    pat.len() <= s.len() && s.subrange(s.len() - pat.len(), s.len() as int) == pat
}

/// Appends one character to a string (`String::push`).
#[verifier::external_body]
pub(crate) fn push_char(s: &mut String, c: char)
    ensures
        final(s)@ == old(s)@.push(c),
{
    s.push(c);
}

/// The characters of `s`, in order.
pub fn chars_of(s: &str) -> (v: Vec<char>)
    ensures
        v@ == s@,
{
    let mut v: Vec<char> = Vec::new();
    for c in it: s.chars()
        invariant
            v@ == it.seq().take(it.index() as int),
            it.seq() == s@,
    {
        v.push(c);
    }
    v
}

/// A string holding `v[lo..hi]`.
pub fn string_of(v: &Vec<char>, lo: usize, hi: usize) -> (s: String)
    requires
        lo <= hi <= v.len(),
    ensures
        s@ == v@.subrange(lo as int, hi as int),
{
    let mut s = String::new();
    let mut i = lo;
    while i < hi
        invariant
            lo <= i <= hi <= v.len(),
            s@ == v@.subrange(lo as int, i as int),
        decreases hi - i,
    {
        push_char(&mut s, v[i]);
        assert(v@.subrange(lo as int, i + 1) == v@.subrange(lo as int, i as int).push(v@[i as int]));
        i = i + 1;
    }
    s
}

/// `char::is_whitespace`.
pub fn is_whitespace(c: char) -> (b: bool)
    ensures
        b == is_ws(c),
{
    ('\u{9}' <= c && c <= '\u{d}') || c == ' ' || c == '\u{85}' || c == '\u{a0}' || c == '\u{1680}'
        || ('\u{2000}' <= c && c <= '\u{200a}') || c == '\u{2028}' || c == '\u{2029}' || c
        == '\u{202f}' || c == '\u{205f}' || c == '\u{3000}'
}

/// `char::to_ascii_lowercase`.
pub fn to_lower(c: char) -> (r: char)
    ensures
        r == lower(c),
{
    if 'A' <= c && c <= 'Z' {
        let n: u32 = c as u32;
        assert((n as u8) as u32 == n) by (bit_vector)
            requires
                n < 256,
        ;
        let b: u8 = n as u8;
        (b + 32) as char
    } else {
        c
    }
}

/// `char::to_ascii_uppercase`.
pub fn to_upper(c: char) -> (r: char)
    ensures
        r == upper(c),
{
    if 'a' <= c && c <= 'z' {
        let n: u32 = c as u32;
        assert((n as u8) as u32 == n) by (bit_vector)
            requires
                n < 256,
        ;
        let b: u8 = n as u8;
        (b - 32) as char
    } else {
        c
    }
}

/// The bounds of `trim(v[lo..hi])` inside `v`.
pub fn trim_range(v: &Vec<char>, lo: usize, hi: usize) -> (r: (usize, usize))
    requires
        lo <= hi <= v.len(),
    ensures
        lo <= r.0 <= r.1 <= hi,
        v@.subrange(r.0 as int, r.1 as int) == trim(v@.subrange(lo as int, hi as int)),
{
    let mut a = lo;
    while a < hi && is_whitespace(v[a])
        invariant
            lo <= a <= hi <= v.len(),
            trim_start(v@.subrange(lo as int, hi as int)) == trim_start(v@.subrange(a as int, hi as int)),
        decreases hi - a,
    {
        assert(v@.subrange(a as int, hi as int).drop_first() == v@.subrange(a + 1, hi as int));
        a = a + 1;
    }
    assert(trim_start(v@.subrange(a as int, hi as int)) == v@.subrange(a as int, hi as int));
    let mut b = hi;
    while b > a && is_whitespace(v[b - 1])
        invariant
            lo <= a <= b <= hi <= v.len(),
            trim_end(v@.subrange(a as int, hi as int)) == trim_end(v@.subrange(a as int, b as int)),
        decreases b - a,
    {
        assert(v@.subrange(a as int, b as int).drop_last() == v@.subrange(a as int, b - 1));
        b = b - 1;
    }
    assert(trim_end(v@.subrange(a as int, b as int)) == v@.subrange(a as int, b as int));
    (a, b)
}

/// The pieces named by `ranges`, each a range of `v`.
pub open spec fn pieces(v: Seq<char>, ranges: Seq<(usize, usize)>) -> Seq<Seq<char>> {
    Seq::new(ranges.len(), |j: int| v.subrange(ranges[j].0 as int, ranges[j].1 as int))
}

/// The ranges of `v` that `split(v[lo..hi], sep)` yields.
pub fn split_ranges(v: &Vec<char>, lo: usize, hi: usize, sep: char) -> (r: Vec<(usize, usize)>)
    requires
        lo <= hi <= v.len(),
    ensures
        forall|j: int| 0 <= j < r.len() ==> lo <= (#[trigger] r@[j]).0 <= r@[j].1 <= hi,
        pieces(v@, r@) == split(v@.subrange(lo as int, hi as int), sep),
{
    let mut r: Vec<(usize, usize)> = Vec::new();
    let mut start = lo;
    let mut i = lo;
    assert(v@.subrange(lo as int, lo as int) == Seq::<char>::empty());
    assert(pieces(v@, r@).push(v@.subrange(start as int, i as int)) == seq![Seq::<char>::empty()]);
    while i < hi
        invariant
            lo <= start <= i <= hi <= v.len(),
            forall|j: int| 0 <= j < r.len() ==> lo <= (#[trigger] r@[j]).0 <= r@[j].1 <= i,
            pieces(v@, r@).push(v@.subrange(start as int, i as int)) == split(
                v@.subrange(lo as int, i as int),
                sep,
            ),
        decreases hi - i,
    {
        let ghost whole = v@.subrange(lo as int, i + 1);
        assert(whole.drop_last() == v@.subrange(lo as int, i as int));
        assert(whole.last() == v@[i as int]);
        let ghost old_r = r@;
        if v[i] == sep {
            r.push((start, i));
            assert(pieces(v@, r@) == pieces(v@, old_r).push(v@.subrange(start as int, i as int)));
            start = i + 1;
            assert(v@.subrange(start as int, i + 1) == Seq::<char>::empty());
        } else {
            assert(v@.subrange(start as int, i + 1) == v@.subrange(start as int, i as int).push(
                v@[i as int],
            ));
            assert(pieces(v@, r@).push(v@.subrange(start as int, i + 1)) == pieces(
                v@,
                r@,
            ).push(v@.subrange(start as int, i as int)).update(
                pieces(v@, r@).len() as int,
                v@.subrange(start as int, i as int).push(v@[i as int]),
            ));
        }
        i = i + 1;
    }
    let ghost old_r = r@;
    r.push((start, hi));
    assert(pieces(v@, r@) == pieces(v@, old_r).push(v@.subrange(start as int, hi as int)));
    r
}

/// `eq_ignore_case(v[lo..hi], pat)`.
pub fn eq_ignore_case_at(v: &Vec<char>, lo: usize, hi: usize, pat: &Vec<char>) -> (b: bool)
    requires
        lo <= hi <= v.len(),
    ensures
        b == eq_ignore_case(v@.subrange(lo as int, hi as int), pat@),
{
    let ghost s = v@.subrange(lo as int, hi as int);
    if hi - lo != pat.len() {
        assert(lower_seq(s).len() != lower_seq(pat@).len());
        return false;
    }
    let mut i: usize = 0;
    while i < pat.len()
        invariant
            lo <= hi <= v.len(),
            hi - lo == pat.len(),
            s == v@.subrange(lo as int, hi as int),
            i <= pat.len(),
            forall|j: int| 0 <= j < i ==> lower(s[j]) == lower(pat@[j]),
        decreases pat.len() - i,
    {
        if to_lower(v[lo + i]) != to_lower(pat[i]) {
            assert(lower_seq(s)[i as int] != lower_seq(pat@)[i as int]);
            return false;
        }
        i = i + 1;
    }
    assert(lower_seq(s) == lower_seq(pat@));
    true
}

/// `contains_seq(v[lo..hi], pat)`.
pub fn contains_at(v: &Vec<char>, lo: usize, hi: usize, pat: &Vec<char>) -> (b: bool)
    requires
        lo <= hi <= v.len(),
    ensures
        b == contains_seq(v@.subrange(lo as int, hi as int), pat@),
{
    let ghost s = v@.subrange(lo as int, hi as int);
    if pat.len() > hi - lo {
        return false;
    }
    let last = hi - lo - pat.len();
    let mut i: usize = 0;
    while i <= last
        invariant
            lo <= hi <= v.len(),
            s == v@.subrange(lo as int, hi as int),
            last + pat.len() == hi - lo,
            i <= last + 1,
            forall|k: int| 0 <= k < i ==> #[trigger] s.subrange(k, k + pat.len()) != pat@,
        decreases last + 1 - i,
    {
        let mut j: usize = 0;
        let mut same = true;
        while j < pat.len()
            invariant
                lo <= hi <= v.len(),
                s == v@.subrange(lo as int, hi as int),
                last + pat.len() == hi - lo,
                i <= last,
                j <= pat.len(),
                same == (forall|k: int| 0 <= k < j ==> s[i + k] == pat@[k]),
            decreases pat.len() - j,
        {
            if v[lo + i + j] != pat[j] {
                same = false;
            }
            j = j + 1;
        }
        if same {
            assert(s.subrange(i as int, i + pat.len()) == pat@);
            return true;
        }
        assert(s.subrange(i as int, i + pat.len()) != pat@) by {
            let k = choose|k: int| 0 <= k < pat.len() && s[i + k] != pat@[k];
            assert(s.subrange(i as int, i + pat.len())[k] == s[i + k]);
        }
        i = i + 1;
    }
    assert(!contains_seq(s, pat@)) by {
        if contains_seq(s, pat@) {
            let k = choose|k: int| 0 <= k && k + pat@.len() <= s.len() && #[trigger] s.subrange(k, k + pat@.len()) == pat@;
            assert(k < i);
        }
    }
    false
}

/// The ASCII upper-cased form of `v[lo..hi]`.
pub fn upper_range(v: &Vec<char>, lo: usize, hi: usize) -> (r: Vec<char>)
    requires
        lo <= hi <= v.len(),
    ensures
        r@ == upper_seq(v@.subrange(lo as int, hi as int)),
{
    let mut r: Vec<char> = Vec::new();
    let mut i = lo;
    while i < hi
        invariant
            lo <= i <= hi <= v.len(),
            r@ == upper_seq(v@.subrange(lo as int, i as int)),
        decreases hi - i,
    {
        r.push(to_upper(v[i]));
        assert(upper_seq(v@.subrange(lo as int, i + 1)) == upper_seq(v@.subrange(lo as int, i as int)).push(upper(v@[i as int])));
        i = i + 1;
    }
    r
}

/// The ASCII lower-cased form of `v[lo..hi]`.
pub fn lower_range(v: &Vec<char>, lo: usize, hi: usize) -> (r: Vec<char>)
    requires
        lo <= hi <= v.len(),
    ensures
        r@ == lower_seq(v@.subrange(lo as int, hi as int)),
{
    let mut r: Vec<char> = Vec::new();
    let mut i = lo;
    while i < hi
        invariant
            lo <= i <= hi <= v.len(),
            r@ == lower_seq(v@.subrange(lo as int, i as int)),
        decreases hi - i,
    {
        r.push(to_lower(v[i]));
        assert(lower_seq(v@.subrange(lo as int, i + 1)) == lower_seq(v@.subrange(lo as int, i as int)).push(lower(v@[i as int])));
        i = i + 1;
    }
    r
}

/// Whether `v` equals `pat` character for character.
pub fn same_chars(v: &Vec<char>, pat: &Vec<char>) -> (b: bool)
    ensures
        b == (v@ == pat@),
{
    if v.len() != pat.len() {
        return false;
    }
    let mut i: usize = 0;
    while i < v.len()
        invariant
            v.len() == pat.len(),
            i <= v.len(),
            forall|j: int| 0 <= j < i ==> v@[j] == pat@[j],
        decreases v.len() - i,
    {
        if v[i] != pat[i] {
            return false;
        }
        i = i + 1;
    }
    assert(v@ == pat@);
    true
}

/// Whether the strings `a` and `b` are equal.
pub fn same_text(a: &str, b: &str) -> (r: bool)
    ensures
        r == (a@ == b@),
{
    let va = chars_of(a);
    let vb = chars_of(b);
    same_chars(&va, &vb)
}

/// The index of the first `c` in `s`, or `s.len()` when there is none.
pub open spec fn index_of(s: Seq<char>, c: char) -> int
    decreases s.len(),
{
    if s.len() == 0 || s[0] == c {
        0
    } else {
        1 + index_of(s.drop_first(), c)
    }
}

/// `i` is the first index of `c` in `s` (or `s.len()` when `c` is absent).
pub proof fn lemma_index_of(s: Seq<char>, c: char, i: int)
    requires
        0 <= i <= s.len(),
        forall|j: int| 0 <= j < i ==> s[j] != c,
        i < s.len() ==> s[i] == c,
    ensures
        index_of(s, c) == i,
    decreases i,
{
    if i > 0 {
        assert(s[0] != c);
        let t = s.drop_first();
        assert forall|j: int| 0 <= j < i - 1 implies t[j] != c by {
            assert(t[j] == s[j + 1]);
        }
        if i - 1 < t.len() {
            assert(t[i - 1] == s[i]);
        }
        lemma_index_of(t, c, i - 1);
    }
}

/// The first index of `c` in `v[lo..hi]`, relative to `lo`, or `hi - lo`.
pub fn find_char(v: &Vec<char>, lo: usize, hi: usize, c: char) -> (i: usize)
    requires
        lo <= hi <= v.len(),
    ensures
        lo + i <= hi,
        i == index_of(v@.subrange(lo as int, hi as int), c),
{
    let ghost s = v@.subrange(lo as int, hi as int);
    let mut i: usize = 0;
    while lo + i < hi && v[lo + i] != c
        invariant
            lo + i <= hi <= v.len(),
            s == v@.subrange(lo as int, hi as int),
            forall|j: int| 0 <= j < i ==> s[j] != c,
        decreases hi - lo - i,
    {
        i = i + 1;
    }
    proof {
        lemma_index_of(s, c, i as int);
    }
    i
}

/// `str::trim_start_matches('0')`: `s` without its leading zeros.
pub open spec fn strip_zeros(s: Seq<char>) -> Seq<char>
    decreases s.len(),
{
    if s.len() > 0 && s[0] == '0' {
        strip_zeros(s.drop_first())
    } else {
        s
    }
}

/// The start of `strip_zeros(v[lo..hi])` inside `v`.
pub fn skip_zeros(v: &Vec<char>, lo: usize, hi: usize) -> (a: usize)
    requires
        lo <= hi <= v.len(),
    ensures
        lo <= a <= hi,
        v@.subrange(a as int, hi as int) == strip_zeros(v@.subrange(lo as int, hi as int)),
{
    let mut a = lo;
    while a < hi && v[a] == '0'
        invariant
            lo <= a <= hi <= v.len(),
            strip_zeros(v@.subrange(lo as int, hi as int)) == strip_zeros(v@.subrange(a as int, hi as int)),
        decreases hi - a,
    {
        assert(v@.subrange(a as int, hi as int).drop_first() == v@.subrange(a + 1, hi as int));
        a = a + 1;
    }
    a
}

/// `split` always yields at least one piece.
pub proof fn lemma_split_nonempty(s: Seq<char>, sep: char)
    ensures
        split(s, sep).len() >= 1,
    decreases s.len(),
{
    if s.len() > 0 {
        lemma_split_nonempty(s.drop_last(), sep);
    }
}

/// Whether `v[lo..hi]` equals `pat`.
pub fn range_equals(v: &Vec<char>, lo: usize, hi: usize, pat: &Vec<char>) -> (b: bool)
    requires
        lo <= hi <= v.len(),
    ensures
        b == (v@.subrange(lo as int, hi as int) == pat@),
{
    if hi - lo != pat.len() {
        return false;
    }
    let mut i: usize = 0;
    while i < pat.len()
        invariant
            lo <= hi <= v.len(),
            hi - lo == pat.len(),
            i <= pat.len(),
            forall|j: int| 0 <= j < i ==> v@[lo + j] == pat@[j],
        decreases pat.len() - i,
    {
        if v[lo + i] != pat[i] {
            assert(v@.subrange(lo as int, hi as int)[i as int] != pat@[i as int]);
            return false;
        }
        i = i + 1;
    }
    assert(v@.subrange(lo as int, hi as int) == pat@);
    true
}

/// The pieces joined back with the separator between them.
pub open spec fn join(pieces: Seq<Seq<char>>, sep: char) -> Seq<char>
    decreases pieces.len(),
{
    if pieces.len() <= 1 {
        if pieces.len() == 1 {
            pieces[0]
        } else {
            Seq::empty()
        }
    } else {
        join(pieces.drop_last(), sep) + seq![sep] + pieces.last()
    }
}

proof fn lemma_join_extend_last(ps: Seq<Seq<char>>, sep: char, c: char)
    requires
        ps.len() >= 1,
    ensures
        join(ps.update(ps.len() - 1, ps.last().push(c)), sep) == join(ps, sep).push(c),
{
    let qs = ps.update(ps.len() - 1, ps.last().push(c));
    if ps.len() > 1 {
        assert(qs.drop_last() == ps.drop_last());
    }
}

/// Splitting cuts `s` at every separator: the pieces hold no separator and
/// joined back with it they give `s`.
pub proof fn law_split_cuts_at_separators(s: Seq<char>, sep: char)
    ensures
        join(split(s, sep), sep) == s,
        forall|i: int, j: int|
            0 <= i < split(s, sep).len() && 0 <= j < split(s, sep)[i].len() ==> #[trigger] split(s, sep)[i][j] != sep,
        split(s, sep).len() >= 1,
    decreases s.len(),
{
    lemma_split_nonempty(s, sep);
    if s.len() > 0 {
        let head = split(s.drop_last(), sep);
        law_split_cuts_at_separators(s.drop_last(), sep);
        if s.last() == sep {
            assert(split(s, sep).drop_last() == head);
            assert(s.drop_last() + seq![sep] + Seq::<char>::empty() == s);
            assert forall|i: int, j: int|
                0 <= i < split(s, sep).len() && 0 <= j < split(s, sep)[i].len() implies #[trigger] split(s, sep)[i][j] != sep by {
                assert(i < head.len());
                assert(split(s, sep)[i] == head[i]);
            }
        } else {
            lemma_join_extend_last(head, sep, s.last());
            assert(s.drop_last().push(s.last()) == s);
            assert forall|i: int, j: int|
                0 <= i < split(s, sep).len() && 0 <= j < split(s, sep)[i].len() implies #[trigger] split(s, sep)[i][j] != sep by {
                if i < head.len() - 1 {
                    assert(split(s, sep)[i] == head[i]);
                } else {
                    assert(split(s, sep)[i] == head.last().push(s.last()));
                    if j < head.last().len() {
                        assert(head[head.len() - 1][j] != sep);
                    }
                }
            }
        }
    } else {
        assert(split(s, sep) == seq![Seq::<char>::empty()]);
    }
}

/// What `trim_start` removes is whitespace, and what it leaves does not
/// start with whitespace.
proof fn lemma_trim_start_shape(s: Seq<char>)
    ensures
        trim_start(s).len() <= s.len(),
        trim_start(s) == s.subrange(s.len() - trim_start(s).len(), s.len() as int),
        forall|j: int| 0 <= j < s.len() - trim_start(s).len() ==> is_ws(#[trigger] s[j]),
        trim_start(s).len() > 0 ==> !is_ws(trim_start(s)[0]),
    decreases s.len(),
{
    if s.len() > 0 && is_ws(s[0]) {
        let t = s.drop_first();
        lemma_trim_start_shape(t);
        assert(t.subrange(t.len() - trim_start(t).len(), t.len() as int) == s.subrange(
            s.len() - trim_start(t).len(),
            s.len() as int,
        ));
        assert forall|j: int| 0 <= j < s.len() - trim_start(s).len() implies is_ws(#[trigger] s[j]) by {
            if j > 0 {
                assert(s[j] == t[j - 1]);
            }
        }
    } else {
        assert(s.subrange(0, s.len() as int) == s);
    }
}

/// What `trim_end` removes is whitespace, and what it leaves does not end
/// with whitespace.
proof fn lemma_trim_end_shape(s: Seq<char>)
    ensures
        trim_end(s).len() <= s.len(),
        trim_end(s) == s.subrange(0, trim_end(s).len() as int),
        forall|j: int| trim_end(s).len() <= j < s.len() ==> is_ws(#[trigger] s[j]),
        trim_end(s).len() > 0 ==> !is_ws(trim_end(s).last()),
    decreases s.len(),
{
    if s.len() > 0 && is_ws(s.last()) {
        let t = s.drop_last();
        lemma_trim_end_shape(t);
        assert(t.subrange(0, trim_end(t).len() as int) == s.subrange(0, trim_end(t).len() as int));
        assert forall|j: int| trim_end(s).len() <= j < s.len() implies is_ws(#[trigger] s[j]) by {
            if j < s.len() - 1 {
                assert(s[j] == t[j]);
            }
        }
    } else {
        assert(s.subrange(0, s.len() as int) == s);
    }
}

/// Trimming keeps a middle part of `s`, removing only whitespace around
/// it, and the part kept neither starts nor ends with whitespace.
pub proof fn law_trim_removes_only_surrounding_whitespace(s: Seq<char>)
    ensures
        exists|a: int, b: int|
            0 <= a <= b <= s.len() && trim(s) == s.subrange(a, b) && (forall|j: int|
                0 <= j < a ==> is_ws(#[trigger] s[j])) && (forall|j: int|
                b <= j < s.len() ==> is_ws(#[trigger] s[j])),
        trim(s).len() > 0 ==> !is_ws(trim(s)[0]) && !is_ws(trim(s).last()),
{
    lemma_trim_start_shape(s);
    let t = trim_start(s);
    lemma_trim_end_shape(t);
    let a = s.len() - t.len();
    let b = a + trim_end(t).len();
    assert(trim(s) == s.subrange(a, b));
    assert forall|j: int| b <= j < s.len() implies is_ws(#[trigger] s[j]) by {
        assert(s[j] == t[j - a]);
    }
    if trim(s).len() > 0 {
        assert(trim(s)[0] == t[0]);
    }
}

} // verus!
