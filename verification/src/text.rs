//! Character-level helpers on which the parsers are built.
use vstd::prelude::*;

use crate::std_calls::push_char;

verus! {

broadcast use vstd::string::group_string_axioms;

// ---------------------------------------------------------------------------
// Conversions between `str`, `String` and character vectors
// ---------------------------------------------------------------------------

/// The characters of `s`, in order.
pub fn chars_of(s: &str) -> (v: Vec<char>)
    ensures
        v@ == s@,
{
    let mut v: Vec<char> = Vec::new();
    for c in it: s.chars()
        invariant
            it.seq() == s@,
            v@ == it.seq().take(it.index()),
    {
        v.push(c);
    }
    v
}

/// A string made of the characters of `v`, in order.
pub fn string_of(v: &[char]) -> (s: String)
    ensures
        s@ == v@,
{
    let mut s = String::new();
    let n = v.len();
    for i in 0..n
        invariant
            n == v@.len(),
            s@ == v@.take(i as int),
    {
        push_char(&mut s, v[i]);
        assert(v@.take(i + 1) == v@.take(i as int).push(v@[i as int]));
    }
    assert(v@.take(n as int) == v@);
    s
}

/// Whether two character sequences are equal.
pub fn chars_equal(a: &[char], b: &[char]) -> (r: bool)
    ensures
        r == (a@ == b@),
{
    if a.len() != b.len() {
        return false;
    }
    let n = a.len();
    for i in 0..n
        invariant
            n == a@.len(),
            n == b@.len(),
            forall|k: int| 0 <= k < i ==> a@[k] == b@[k],
    {
        if a[i] != b[i] {
            return false;
        }
    }
    assert(a@ =~= b@);
    true
}

// ---------------------------------------------------------------------------
// Searching and splitting
// ---------------------------------------------------------------------------

/// The index of the first occurrence of `c` in `s`, if there is one.
pub open spec fn first_index(s: Seq<char>, c: char) -> Option<int>
    decreases s.len(),
{
    if s.len() == 0 {
        None
    } else if s[0] == c {
        Some(0)
    } else {
        match first_index(s.skip(1), c) {
            Some(k) => Some(k + 1),
            None => None,
        }
    }
}

/// `first_index` is the least index holding `c`.
pub proof fn lemma_first_index(s: Seq<char>, c: char, i: int)
    requires
        0 <= i <= s.len(),
        forall|k: int| 0 <= k < i ==> s[k] != c,
        i < s.len() ==> s[i] == c,
    ensures
        first_index(s, c) == (if i < s.len() { Some(i) } else { None::<int> }),
    decreases i,
{
    if i > 0 {
        lemma_first_index(s.skip(1), c, i - 1);
    }
}

/// The two halves of `s` around the first `c`, as `str::split_once` gives them.
pub open spec fn split_once(s: Seq<char>, c: char) -> Option<(Seq<char>, Seq<char>)> {
    match first_index(s, c) {
        Some(i) => Some((s.take(i), s.skip(i + 1))),
        None => None,
    }
}

/// The pieces of `s` between occurrences of `sep`, as `str::split` gives
/// them: always at least one piece, empty pieces included.
pub open spec fn split_on(s: Seq<char>, sep: char) -> Seq<Seq<char>>
    decreases s.len(),
{
    if s.len() == 0 {
        seq![Seq::<char>::empty()]
    } else {
        let prev = split_on(s.drop_last(), sep);
        if s.last() == sep {
            prev.push(Seq::<char>::empty())
        } else {
            prev.update(prev.len() - 1, prev.last().push(s.last()))
        }
    }
}

pub proof fn lemma_split_on_nonempty(s: Seq<char>, sep: char)
    ensures
        split_on(s, sep).len() >= 1,
    decreases s.len(),
{
    if s.len() > 0 {
        lemma_split_on_nonempty(s.drop_last(), sep);
    }
}

/// The position of the first `c` in `s`, if any.
pub fn find_char(s: &[char], c: char) -> (r: Option<usize>)
    ensures
        match r {
            Some(i) => i < s@.len() && first_index(s@, c) == Some(i as int),
            None => first_index(s@, c) is None,
        },
{
    let n = s.len();
    for i in 0..n
        invariant
            n == s@.len(),
            forall|k: int| 0 <= k < i ==> s@[k] != c,
    {
        if s[i] == c {
            proof {
                lemma_first_index(s@, c, i as int);
            }
            return Some(i);
        }
    }
    proof {
        lemma_first_index(s@, c, n as int);
    }
    None
}

/// The characters of `s` from `from` up to (not including) `to`.
pub fn slice_chars(s: &[char], from: usize, to: usize) -> (r: Vec<char>)
    requires
        from <= to <= s@.len(),
    ensures
        r@ == s@.subrange(from as int, to as int),
{
    let mut r: Vec<char> = Vec::new();
    let mut i = from;
    while i < to
        invariant
            from <= i <= to <= s@.len(),
            r@ == s@.subrange(from as int, i as int),
        decreases to - i,
    {
        r.push(s[i]);
        assert(s@.subrange(from as int, i + 1) == s@.subrange(from as int, i as int).push(
            s@[i as int],
        ));
        i = i + 1;
    }
    r
}

/// `str::split_once` on characters: the parts before and after the first `c`.
pub fn split_once_chars(s: &[char], c: char) -> (r: Option<(Vec<char>, Vec<char>)>)
    ensures
        match r {
            Some(p) => split_once(s@, c) == Some((p.0@, p.1@)),
            None => split_once(s@, c) is None,
        },
{
    match find_char(s, c) {
        Some(i) => {
            assert(i < s.len());
            let before = slice_chars(s, 0, i);
            let after = slice_chars(s, i + 1, s.len());
            assert(before@ == s@.take(i as int));
            assert(after@ == s@.skip(i + 1));
            Some((before, after))
        },
        None => None,
    }
}

// ---------------------------------------------------------------------------
// ASCII case and prefixes
// ---------------------------------------------------------------------------

/// `char::to_ascii_lowercase`.
pub open spec fn ascii_lower_char(c: char) -> char {
    if 'A' <= c && c <= 'Z' {
        ((c as u32) + 32) as char
    } else {
        c
    }
}

/// `str::to_ascii_lowercase`: ASCII upper-case letters become lower-case,
/// every other character is kept.
pub open spec fn ascii_lowercase(s: Seq<char>) -> Seq<char> {
    Seq::new(s.len(), |i: int| ascii_lower_char(s[i]))
}

/// The ASCII lower-case form of one character.
pub fn lower_char(c: char) -> (r: char)
    ensures
        r == ascii_lower_char(c),
{
    if 'A' <= c && c <= 'Z' {
        let code: u32 = (c as u32) + 32;
        assert(0x61 <= code <= 0x7a);
        code as u8 as char
    } else {
        c
    }
}

/// The ASCII lower-case form of a character sequence.
pub fn lowercase_chars(s: &[char]) -> (r: Vec<char>)
    ensures
        r@ == ascii_lowercase(s@),
{
    let mut r: Vec<char> = Vec::new();
    let n = s.len();
    for i in 0..n
        invariant
            n == s@.len(),
            r@.len() == i,
            forall|k: int| 0 <= k < i ==> r@[k] == ascii_lower_char(s@[k]),
    {
        r.push(lower_char(s[i]));
    }
    assert(r@ =~= ascii_lowercase(s@));
    r
}

/// `str::strip_prefix`: what follows `prefix` when `s` starts with it.
pub open spec fn strip_prefix(s: Seq<char>, prefix: Seq<char>) -> Option<Seq<char>> {
    if prefix.len() <= s.len() && s.take(prefix.len() as int) == prefix {
        Some(s.skip(prefix.len() as int))
    } else {
        None
    }
}

/// What follows `prefix` in `s`, when `s` starts with `prefix`.
pub fn strip_prefix_chars(s: &[char], prefix: &[char]) -> (r: Option<Vec<char>>)
    ensures
        match r {
            Some(rest) => strip_prefix(s@, prefix@) == Some(rest@),
            None => strip_prefix(s@, prefix@) is None,
        },
{
    let p = prefix.len();
    if p > s.len() {
        return None;
    }
    for i in 0..p
        invariant
            p == prefix@.len(),
            p <= s@.len(),
            forall|k: int| 0 <= k < i ==> s@[k] == prefix@[k],
    {
        if s[i] != prefix[i] {
            assert(s@.take(p as int)[i as int] != prefix@[i as int]);
            return None;
        }
    }
    assert(s@.take(p as int) =~= prefix@);
    let rest = slice_chars(s, p, s.len());
    assert(rest@ == s@.skip(p as int));
    Some(rest)
}

// ---------------------------------------------------------------------------
// Whitespace
// ---------------------------------------------------------------------------

/// `char::is_whitespace`: the characters with the Unicode `White_Space`
/// property.
pub open spec fn is_unicode_whitespace(c: char) -> bool {
    ||| '\u{9}' <= c && c <= '\u{d}'
    ||| c == ' '
    ||| c == '\u{85}'
    ||| c == '\u{a0}'
    ||| c == '\u{1680}'
    ||| '\u{2000}' <= c && c <= '\u{200a}'
    ||| c == '\u{2028}'
    ||| c == '\u{2029}'
    ||| c == '\u{202f}'
    ||| c == '\u{205f}'
    ||| c == '\u{3000}'
}

/// `s` without its leading whitespace.
pub open spec fn trim_start(s: Seq<char>) -> Seq<char>
    decreases s.len(),
{
    if s.len() > 0 && is_unicode_whitespace(s[0]) {
        trim_start(s.skip(1))
    } else {
        s
    }
}

/// `s` without its trailing whitespace.
pub open spec fn trim_end(s: Seq<char>) -> Seq<char>
    decreases s.len(),
{
    if s.len() > 0 && is_unicode_whitespace(s.last()) {
        trim_end(s.drop_last())
    } else {
        s
    }
}

/// `str::trim`: `s` without leading and trailing whitespace.
pub open spec fn trim(s: Seq<char>) -> Seq<char> {
    trim_end(trim_start(s))
}

proof fn lemma_trim_start(s: Seq<char>, i: int)
    requires
        0 <= i <= s.len(),
        forall|k: int| 0 <= k < i ==> is_unicode_whitespace(#[trigger] s[k]),
        i < s.len() ==> !is_unicode_whitespace(s[i]),
    ensures
        trim_start(s) == s.skip(i),
    decreases i,
{
    if i > 0 {
        assert forall|k: int| 0 <= k < i - 1 implies is_unicode_whitespace(
            #[trigger] s.skip(1)[k],
        ) by {
            assert(s.skip(1)[k] == s[k + 1]);
        }
        lemma_trim_start(s.skip(1), i - 1);
        assert(s.skip(1).skip(i - 1) == s.skip(i));
    } else {
        assert(s.skip(0) == s);
    }
}

proof fn lemma_trim_end(s: Seq<char>, j: int)
    requires
        0 <= j <= s.len(),
        forall|k: int| j <= k < s.len() ==> is_unicode_whitespace(#[trigger] s[k]),
        j > 0 ==> !is_unicode_whitespace(s[j - 1]),
    ensures
        trim_end(s) == s.take(j),
    decreases s.len() - j,
{
    if j < s.len() {
        lemma_trim_end(s.drop_last(), j);
        assert(s.drop_last().take(j) == s.take(j));
    } else {
        assert(s.take(j) == s);
    }
}

/// Whether `c` is whitespace.
pub fn is_whitespace_char(c: char) -> (r: bool)
    ensures
        r == is_unicode_whitespace(c),
{
    ('\u{9}' <= c && c <= '\u{d}') || c == ' ' || c == '\u{85}' || c == '\u{a0}' || c
        == '\u{1680}' || ('\u{2000}' <= c && c <= '\u{200a}') || c == '\u{2028}' || c
        == '\u{2029}' || c == '\u{202f}' || c == '\u{205f}' || c == '\u{3000}'
}

/// `s` without leading and trailing whitespace.
pub fn trim_chars(s: &[char]) -> (r: Vec<char>)
    ensures
        r@ == trim(s@),
{
    let n = s.len();
    let mut i: usize = 0;
    while i < n && is_whitespace_char(s[i])
        invariant
            i <= n,
            n == s@.len(),
            forall|k: int| 0 <= k < i ==> is_unicode_whitespace(#[trigger] s@[k]),
        decreases n - i,
    {
        i = i + 1;
    }
    proof {
        lemma_trim_start(s@, i as int);
    }
    let mut j: usize = n;
    while j > i && is_whitespace_char(s[j - 1])
        invariant
            i <= j <= n,
            n == s@.len(),
            forall|k: int| j <= k < n ==> is_unicode_whitespace(#[trigger] s@[k]),
        decreases j,
    {
        j = j - 1;
    }
    let ghost rest = s@.skip(i as int);
    proof {
        assert forall|k: int| j - i <= k < rest.len() implies is_unicode_whitespace(
            #[trigger] rest[k],
        ) by {
            assert(rest[k] == s@[k + i]);
        }
        if j > i {
            assert(rest[j - i - 1] == s@[j - 1]);
        }
        lemma_trim_end(rest, j - i);
        assert(rest.take(j - i) == s@.subrange(i as int, j as int));
    }
    slice_chars(s, i, j)
}

// ---------------------------------------------------------------------------
// Laws of splitting and trimming
// ---------------------------------------------------------------------------

/// `split_once` cuts at the first `c`: the two parts with `c` between them
/// give back `s`, and the first part holds no `c`. There is no cut exactly
/// when `s` holds no `c`.
pub proof fn lemma_split_once_cuts_at_first(s: Seq<char>, c: char)
    ensures
        split_once(s, c) is None <==> !s.contains(c),
        split_once(s, c) matches Some(parts) ==> s == parts.0 + seq![c] + parts.1
            && !parts.0.contains(c),
{
    lemma_first_index_found(s, c);
    match first_index(s, c) {
        Some(i) => {
            assert(s =~= s.take(i) + seq![c] + s.skip(i + 1));
            if s.take(i).contains(c) {
                let k = choose|k: int| 0 <= k < s.take(i).len() && s.take(i)[k] == c;
                assert(s[k] == c);
            }
            assert(s[i] == c);
        },
        None => {},
    }
}

/// `first_index` finds the first `c`, and finds one whenever there is one.
pub proof fn lemma_first_index_found(s: Seq<char>, c: char)
    ensures
        first_index(s, c) matches Some(i) ==> 0 <= i < s.len() && s[i] == c && forall|k: int|
            0 <= k < i ==> s[k] != c,
        first_index(s, c) is None ==> !s.contains(c),
    decreases s.len(),
{
    if s.len() > 0 && s[0] != c {
        lemma_first_index_found(s.skip(1), c);
        if first_index(s.skip(1), c) is None && s.contains(c) {
            let k = choose|k: int| 0 <= k < s.len() && s[k] == c;
            assert(s.skip(1)[k - 1] == c);
        }
        if first_index(s.skip(1), c) is Some {
            let j = first_index(s.skip(1), c)->0;
            assert forall|k: int| 0 <= k < j + 1 implies s[k] != c by {
                if k > 0 {
                    assert(s[k] == s.skip(1)[k - 1]);
                }
            }
        }
    }
}

/// The pieces put back together, with `sep` between them.
pub open spec fn join_with(pieces: Seq<Seq<char>>, sep: char) -> Seq<char>
    decreases pieces.len(),
{
    if pieces.len() <= 1 {
        if pieces.len() == 0 {
            Seq::empty()
        } else {
            pieces[0]
        }
    } else {
        join_with(pieces.drop_last(), sep) + seq![sep] + pieces.last()
    }
}

/// `split_on` cuts `s` at every `sep` and nowhere else: no piece holds
/// `sep`, and the pieces joined with `sep` give back `s`.
pub proof fn lemma_split_on_cuts_at_every_separator(s: Seq<char>, sep: char)
    ensures
        forall|i: int| 0 <= i < split_on(s, sep).len() ==> !(#[trigger] split_on(s, sep)[i]).contains(sep),
        join_with(split_on(s, sep), sep) == s,
    decreases s.len(),
{
    lemma_split_on_nonempty(s, sep);
    if s.len() == 0 {
        assert(!Seq::<char>::empty().contains(sep));
    } else {
        let t = s.drop_last();
        let prev = split_on(t, sep);
        lemma_split_on_cuts_at_every_separator(t, sep);
        lemma_split_on_nonempty(t, sep);
        let n = prev.len() - 1;
        if s.last() == sep {
            let cur = prev.push(Seq::<char>::empty());
            assert(cur.drop_last() == prev);
            assert(s =~= t + seq![sep] + Seq::<char>::empty());
            assert forall|i: int| 0 <= i < cur.len() implies !(#[trigger] cur[i]).contains(sep) by {
                if i == n + 1 {
                    assert(cur[i] =~= Seq::<char>::empty());
                } else {
                    assert(cur[i] == prev[i]);
                }
            }
        } else {
            let piece = prev.last().push(s.last());
            let cur = prev.update(n, piece);
            assert forall|i: int| 0 <= i < cur.len() implies !(#[trigger] cur[i]).contains(sep) by {
                if i == n {
                    assert(!prev[n].contains(sep));
                    if piece.contains(sep) {
                        let k = choose|k: int| 0 <= k < piece.len() && piece[k] == sep;
                        if k < prev[n].len() {
                            assert(prev[n][k] == sep);
                        }
                    }
                } else {
                    assert(cur[i] == prev[i]);
                }
            }
            if n == 0 {
                assert(join_with(prev, sep) == prev[0]);
                assert(cur.len() == 1);
                assert(join_with(cur, sep) == piece);
                assert(s =~= piece);
            } else {
                assert(cur.drop_last() == prev.drop_last());
                assert(join_with(prev, sep) == join_with(prev.drop_last(), sep) + seq![sep] + prev.last());
                let head = join_with(prev.drop_last(), sep) + seq![sep];
                assert(t == head + prev.last());
                assert(s =~= t.push(s.last()));
                assert(s =~= head + piece);
            }
        }
    }
}

/// `trim` takes the inner part of `s`: what it drops at both ends is all
/// whitespace, and what it keeps neither starts nor ends with whitespace.
pub proof fn lemma_trim_keeps_inner_part(s: Seq<char>)
    ensures
        exists|a: int, b: int|
            0 <= a <= b <= s.len() && trim(s) == s.subrange(a, b) && (forall|k: int|
                0 <= k < a ==> is_unicode_whitespace(#[trigger] s[k])) && (forall|k: int|
                b <= k < s.len() ==> is_unicode_whitespace(#[trigger] s[k])) && (a < b
                ==> !is_unicode_whitespace(s[a]) && !is_unicode_whitespace(s[b - 1])),
        trim(s).len() == 0 <==> forall|k: int| 0 <= k < s.len() ==> is_unicode_whitespace(#[trigger] s[k]),
{
    let a = leading_whitespace(s);
    lemma_leading_whitespace(s);
    lemma_trim_start(s, a);
    let rest = s.skip(a);
    let j = trailing_cut(rest);
    lemma_trailing_cut(rest);
    lemma_trim_end(rest, j);
    assert(trim(s) =~= s.subrange(a, a + j));
    assert forall|k: int| a + j <= k < s.len() implies is_unicode_whitespace(#[trigger] s[k]) by {
        assert(s[k] == rest[k - a]);
    }
    if j > 0 {
        assert(s[a + j - 1] == rest[j - 1]);
    }
    if trim(s).len() == 0 {
        assert forall|k: int| 0 <= k < s.len() implies is_unicode_whitespace(#[trigger] s[k]) by {
            if k >= a {
                assert(s[k] == rest[k - a]);
            }
        }
    }
    if forall|k: int| 0 <= k < s.len() ==> is_unicode_whitespace(#[trigger] s[k]) {
        if a < s.len() {
            assert(is_unicode_whitespace(s[a]));
        }
    }
}

spec fn leading_whitespace(s: Seq<char>) -> int
    decreases s.len(),
{
    if s.len() > 0 && is_unicode_whitespace(s[0]) {
        1 + leading_whitespace(s.skip(1))
    } else {
        0
    }
}

proof fn lemma_leading_whitespace(s: Seq<char>)
    ensures
        0 <= leading_whitespace(s) <= s.len(),
        forall|k: int| 0 <= k < leading_whitespace(s) ==> is_unicode_whitespace(#[trigger] s[k]),
        leading_whitespace(s) < s.len() ==> !is_unicode_whitespace(s[leading_whitespace(s)]),
    decreases s.len(),
{
    if s.len() > 0 && is_unicode_whitespace(s[0]) {
        lemma_leading_whitespace(s.skip(1));
        assert forall|k: int| 0 <= k < leading_whitespace(s) implies is_unicode_whitespace(
            #[trigger] s[k],
        ) by {
            if k > 0 {
                assert(s[k] == s.skip(1)[k - 1]);
            }
        }
        if leading_whitespace(s) < s.len() {
            assert(s[leading_whitespace(s)] == s.skip(1)[leading_whitespace(s.skip(1))]);
        }
    }
}

spec fn trailing_cut(s: Seq<char>) -> int
    decreases s.len(),
{
    if s.len() > 0 && is_unicode_whitespace(s.last()) {
        trailing_cut(s.drop_last())
    } else {
        s.len() as int
    }
}

proof fn lemma_trailing_cut(s: Seq<char>)
    ensures
        0 <= trailing_cut(s) <= s.len(),
        forall|k: int| trailing_cut(s) <= k < s.len() ==> is_unicode_whitespace(#[trigger] s[k]),
        trailing_cut(s) > 0 ==> !is_unicode_whitespace(s[trailing_cut(s) - 1]),
    decreases s.len(),
{
    if s.len() > 0 && is_unicode_whitespace(s.last()) {
        lemma_trailing_cut(s.drop_last());
        assert forall|k: int| trailing_cut(s) <= k < s.len() implies is_unicode_whitespace(
            #[trigger] s[k],
        ) by {
            if k < s.len() - 1 {
                assert(s[k] == s.drop_last()[k]);
            }
        }
        if trailing_cut(s) > 0 {
            assert(s[trailing_cut(s) - 1] == s.drop_last()[trailing_cut(s) - 1]);
        }
    }
}

/// Lower-casing keeps the length, leaves no ASCII upper-case letter, and
/// changes a character only by turning `A`..`Z` into `a`..`z`.
pub proof fn lemma_ascii_lowercase_law(s: Seq<char>)
    ensures
        ascii_lowercase(s).len() == s.len(),
        forall|i: int|
            0 <= i < s.len() ==> !('A' <= #[trigger] ascii_lowercase(s)[i] && ascii_lowercase(s)[i]
                <= 'Z'),
        forall|i: int|
            0 <= i < s.len() ==> (#[trigger] ascii_lowercase(s)[i] == s[i] && !('A' <= s[i]
                && s[i] <= 'Z')) || ('A' <= s[i] && s[i] <= 'Z' && ascii_lowercase(s)[i] as u32
                == s[i] as u32 + 32),
{
    assert forall|i: int| 0 <= i < s.len() implies !('A' <= #[trigger] ascii_lowercase(s)[i]
        && ascii_lowercase(s)[i] <= 'Z') by {
        let c = s[i];
        if 'A' <= c && c <= 'Z' {
            assert(ascii_lowercase(s)[i] as u32 == c as u32 + 32);
        }
    }
}

} // verus!
