//! Character-level text operations on `Seq<char>`, with their executable
//! counterparts on `Vec<char>`, `&str` and `String`.
//!
//! The spec functions here state what the std string operations that the
//! library relies on (`trim`, `lines`, `split`, `split_whitespace`,
//! `to_ascii_lowercase`, ...) compute, and the executable functions are
//! proved against them.

use vstd::prelude::*;

verus! {

broadcast use vstd::string::group_string_axioms;

// ---------------------------------------------------------------------
// Characters
// ---------------------------------------------------------------------

/// Unicode `White_Space`, the property that `char::is_whitespace` tests.
pub open spec fn is_ws(c: char) -> bool {
    let u = c as u32;
    ||| 9 <= u <= 13
    ||| u == 32
    ||| u == 0x85
    ||| u == 0xa0
    ||| u == 0x1680
    ||| 0x2000 <= u <= 0x200a
    ||| u == 0x2028
    ||| u == 0x2029
    ||| u == 0x202f
    ||| u == 0x205f
    ||| u == 0x3000
}

pub open spec fn is_lower(c: char) -> bool {
    'a' <= c <= 'z'
}

pub open spec fn is_upper(c: char) -> bool {
    'A' <= c <= 'Z'
}

pub open spec fn is_digit(c: char) -> bool {
    '0' <= c <= '9'
}

pub open spec fn is_hex_digit(c: char) -> bool {
    is_digit(c) || 'a' <= c <= 'f' || 'A' <= c <= 'F'
}

/// `char::to_ascii_lowercase`.
pub open spec fn lower_char(c: char) -> char {
    if is_upper(c) {
        ((c as u32) + 32) as char
    } else {
        c
    }
}

/// `str::to_ascii_lowercase`.
pub open spec fn lower(s: Seq<char>) -> Seq<char> {
    s.map_values(|c: char| lower_char(c))
}

pub fn is_whitespace(c: char) -> (r: bool)
    ensures
        r == is_ws(c),
{
    let u = c as u32;
    (9 <= u && u <= 13) || u == 32 || u == 0x85 || u == 0xa0 || u == 0x1680 || (0x2000 <= u && u
        <= 0x200a) || u == 0x2028 || u == 0x2029 || u == 0x202f || u == 0x205f || u == 0x3000
}

pub fn is_ascii_lowercase(c: char) -> (r: bool)
    ensures
        r == is_lower(c),
{
    'a' <= c && c <= 'z'
}

pub fn is_ascii_digit(c: char) -> (r: bool)
    ensures
        r == is_digit(c),
{
    '0' <= c && c <= '9'
}

pub fn is_ascii_hexdigit(c: char) -> (r: bool)
    ensures
        r == is_hex_digit(c),
{
    ('0' <= c && c <= '9') || ('a' <= c && c <= 'f') || ('A' <= c && c <= 'F')
}

pub fn to_ascii_lowercase(c: char) -> (r: char)
    ensures
        r == lower_char(c),
{
    if 'A' <= c && c <= 'Z' {
        let w: u32 = c as u32;
        let u: u8 = w as u8;
        assert(u == w) by (bit_vector)
            requires
                w < 256,
                u == w as u8,
        ;
        (u + 32) as char
    } else {
        c
    }
}

// ---------------------------------------------------------------------
// Strings and character vectors
// ---------------------------------------------------------------------

/// Appends one character to a `String`.
/// Wraps `String::push`; claims that the string's characters gain `c` at the end.
#[verifier::external_body]
pub(crate) fn string_push(s: &mut String, c: char)
    ensures
        final(s)@ == old(s)@.push(c),
{
    s.push(c);
}

/// The characters of `s`, in order.
pub fn chars_of(s: &str) -> (v: Vec<char>)
    ensures
        v@ == s@,
{
    let mut v: Vec<char> = Vec::new();
    for c in it: s.chars()
        invariant
            it.seq() == s@,
            v@ == it.seq().take(it.index() as int),
    {
        v.push(c);
    }
    v
}

/// Appends `v[lo..hi]` to `s`.
pub fn push_range(s: &mut String, v: &Vec<char>, lo: usize, hi: usize)
    requires
        lo <= hi <= v.len(),
    ensures
        final(s)@ == old(s)@ + v@.subrange(lo as int, hi as int),
{
    let mut i = lo;
    while i < hi
        invariant
            lo <= i <= hi <= v.len(),
            s@ == old(s)@ + v@.subrange(lo as int, i as int),
        decreases hi - i,
    {
        string_push(s, v[i]);
        i += 1;
        assert(v@.subrange(lo as int, i as int) =~= v@.subrange(lo as int, i - 1).push(
            v@[i - 1],
        ));
    }
}

/// The string made of `v[lo..hi]`.
pub fn string_of(v: &Vec<char>, lo: usize, hi: usize) -> (s: String)
    requires
        lo <= hi <= v.len(),
    ensures
        s@ == v@.subrange(lo as int, hi as int),
{
    let mut s = String::new();
    push_range(&mut s, v, lo, hi);
    assert(Seq::<char>::empty() + v@.subrange(lo as int, hi as int) =~= v@.subrange(
        lo as int,
        hi as int,
    ));
    s
}

/// Appends the characters of `t` to `s`.
pub fn push_str(s: &mut String, t: &str)
    ensures
        final(s)@ == old(s)@ + t@,
{
    let v = chars_of(t);
    push_range(s, &v, 0, v.len());
    assert(v@.subrange(0, v@.len() as int) =~= v@);
}

/// `s` followed by `t`, as a new string.
pub fn concat(s: &str, t: &str) -> (r: String)
    ensures
        r@ == s@ + t@,
{
    let mut r = String::new();
    push_str(&mut r, s);
    push_str(&mut r, t);
    assert(Seq::<char>::empty() + s@ + t@ =~= s@ + t@);
    r
}

/// A copy of `s`.
pub fn copy_str(s: &str) -> (r: String)
    ensures
        r@ == s@,
{
    let mut r = String::new();
    push_str(&mut r, s);
    assert(Seq::<char>::empty() + s@ =~= s@);
    r
}

/// Character-wise equality of `v[lo..hi]` and `t`.
pub fn range_eq(v: &Vec<char>, lo: usize, hi: usize, t: &str) -> (r: bool)
    requires
        lo <= hi <= v.len(),
    ensures
        r == (v@.subrange(lo as int, hi as int) == t@),
{
    let w = chars_of(t);
    if hi - lo != w.len() {
        return false;
    }
    let mut i: usize = 0;
    while i < w.len()
        invariant
            lo <= hi <= v.len(),
            hi - lo == w.len(),
            w@ == t@,
            i <= w.len(),
            forall|k: int| 0 <= k < i ==> v@[lo + k] == w@[k],
        decreases w.len() - i,
    {
        if v[lo + i] != w[i] {
            assert(v@.subrange(lo as int, hi as int)[i as int] != t@[i as int]);
            return false;
        }
        i += 1;
    }
    assert(v@.subrange(lo as int, hi as int) =~= t@);
    true
}

// ---------------------------------------------------------------------
// trim
// ---------------------------------------------------------------------

/// `str::trim_start`.
pub open spec fn trim_start(s: Seq<char>) -> Seq<char>
    decreases s.len(),
{
    if s.len() > 0 && is_ws(s[0]) {
        trim_start(s.drop_first())
    } else {
        s
    }
}

/// `str::trim_end`.
pub open spec fn trim_end(s: Seq<char>) -> Seq<char>
    decreases s.len(),
{
    if s.len() > 0 && is_ws(s.last()) {
        trim_end(s.drop_last())
    } else {
        s
    }
}

/// `str::trim`: no leading and no trailing whitespace.
pub open spec fn trim(s: Seq<char>) -> Seq<char> {
    trim_end(trim_start(s))
}

/// The bounds of `trim(v[lo..hi])` within `v`.
pub fn trim_range(v: &Vec<char>, lo: usize, hi: usize) -> (r: (usize, usize))
    requires
        lo <= hi <= v.len(),
    ensures
        lo <= r.0 <= r.1 <= hi,
        v@.subrange(r.0 as int, r.1 as int) == trim(v@.subrange(lo as int, hi as int)),
{
    let mut i = lo;
    while i < hi && is_whitespace(v[i])
        invariant
            lo <= i <= hi <= v.len(),
            trim_start(v@.subrange(i as int, hi as int)) == trim_start(
                v@.subrange(lo as int, hi as int),
            ),
        decreases hi - i,
    {
        assert(v@.subrange(i as int, hi as int).drop_first() =~= v@.subrange(i + 1, hi as int));
        i += 1;
    }
    assert(trim_start(v@.subrange(i as int, hi as int)) == v@.subrange(i as int, hi as int));
    let mut j = hi;
    while j > i && is_whitespace(v[j - 1])
        invariant
            lo <= i <= j <= hi <= v.len(),
            trim_end(v@.subrange(i as int, j as int)) == trim_end(
                v@.subrange(i as int, hi as int),
            ),
        decreases j - i,
    {
        assert(v@.subrange(i as int, j as int).drop_last() =~= v@.subrange(i as int, j - 1));
        j -= 1;
    }
    assert(trim_end(v@.subrange(i as int, j as int)) == v@.subrange(i as int, j as int));
    (i, j)
}

/// `s.trim()` as a character vector.
pub fn trimmed_chars(s: &str) -> (v: Vec<char>)
    ensures
        v@ == trim(s@),
{
    let all = chars_of(s);
    let (lo, hi) = trim_range(&all, 0, all.len());
    assert(all@.subrange(0, all@.len() as int) =~= all@);
    let mut v: Vec<char> = Vec::new();
    let mut i = lo;
    while i < hi
        invariant
            lo <= i <= hi <= all.len(),
            v@ == all@.subrange(lo as int, i as int),
        decreases hi - i,
    {
        v.push(all[i]);
        i += 1;
        assert(v@ =~= all@.subrange(lo as int, i as int));
    }
    v
}

// ---------------------------------------------------------------------
// ASCII lower case
// ---------------------------------------------------------------------

/// `v[lo..hi].to_ascii_lowercase()` as a string.
pub fn lowercase_string(v: &Vec<char>, lo: usize, hi: usize) -> (s: String)
    requires
        lo <= hi <= v.len(),
    ensures
        s@ == lower(v@.subrange(lo as int, hi as int)),
{
    let mut s = String::new();
    let mut i = lo;
    while i < hi
        invariant
            lo <= i <= hi <= v.len(),
            s@ == lower(v@.subrange(lo as int, i as int)),
        decreases hi - i,
    {
        let c = to_ascii_lowercase(v[i]);
        string_push(&mut s, c);
        i += 1;
        assert(s@ =~= lower(v@.subrange(lo as int, i as int)));
    }
    s
}

// ---------------------------------------------------------------------
// First occurrence of a character
// ---------------------------------------------------------------------

/// The index of the first `c` in `s`.
pub open spec fn first_index(s: Seq<char>, c: char) -> Option<int>
    decreases s.len(),
{
    if s.len() == 0 {
        None
    } else if s[0] == c {
        Some(0)
    } else {
        match first_index(s.drop_first(), c) {
            Some(i) => Some(i + 1),
            None => None,
        }
    }
}

pub proof fn lemma_first_index(s: Seq<char>, c: char, i: int)
    requires
        0 <= i <= s.len(),
        forall|k: int| 0 <= k < i ==> s[k] != c,
    ensures
        i < s.len() && s[i] == c ==> first_index(s, c) == Some(i),
        i == s.len() ==> first_index(s, c) is None,
    decreases i,
{
    if i > 0 {
        lemma_first_index(s.drop_first(), c, i - 1);
    }
}

/// `str::split_once` with a character pattern.
pub open spec fn split_once(s: Seq<char>, c: char) -> Option<(Seq<char>, Seq<char>)> {
    match first_index(s, c) {
        Some(i) => Some((s.take(i), s.skip(i + 1))),
        None => None,
    }
}

/// The index of the first `c` in `v[lo..hi]`, counted from `lo`'s start of `v`.
pub fn find_char(v: &Vec<char>, lo: usize, hi: usize, c: char) -> (r: Option<usize>)
    requires
        lo <= hi <= v.len(),
    ensures
        r matches Some(i) ==> lo <= i < hi && first_index(v@.subrange(lo as int, hi as int), c)
            == Some(i - lo),
        r is None ==> first_index(v@.subrange(lo as int, hi as int), c) is None,
{
    let ghost s = v@.subrange(lo as int, hi as int);
    let mut i = lo;
    while i < hi
        invariant
            lo <= i <= hi <= v.len(),
            s == v@.subrange(lo as int, hi as int),
            forall|k: int| 0 <= k < i - lo ==> s[k] != c,
        decreases hi - i,
    {
        if v[i] == c {
            proof {
                lemma_first_index(s, c, i - lo);
            }
            return Some(i);
        }
        i += 1;
    }
    proof {
        lemma_first_index(s, c, s.len() as int);
    }
    None
}

// ---------------------------------------------------------------------
// lines
// ---------------------------------------------------------------------

pub open spec fn strip_cr(s: Seq<char>) -> Seq<char> {
    if s.len() > 0 && s.last() == '\r' {
        s.drop_last()
    } else {
        s
    }
}

/// The finished lines of `s`, and the line still open at its end.
pub open spec fn line_split(s: Seq<char>) -> (Seq<Seq<char>>, Seq<char>)
    decreases s.len(),
{
    if s.len() == 0 {
        (seq![], seq![])
    } else {
        let (done, cur) = line_split(s.drop_last());
        if s.last() == '\n' {
            (done.push(strip_cr(cur)), seq![])
        } else {
            (done, cur.push(s.last()))
        }
    }
}

/// `str::lines`: lines end at `\n` or `\r\n`, and a final line ending is optional.
pub open spec fn lines(s: Seq<char>) -> Seq<Seq<char>> {
    let (done, cur) = line_split(s);
    if cur.len() > 0 {
        done.push(cur)
    } else {
        done
    }
}

/// The bounds within `v` of each of `lines(v)`.
pub fn line_ranges(v: &Vec<char>) -> (r: Vec<(usize, usize)>)
    ensures
        r.len() == lines(v@).len(),
        forall|k: int|
            #![trigger r[k]]
            0 <= k < r.len() ==> {
                &&& r[k].0 <= r[k].1 <= v.len()
                &&& v@.subrange(r[k].0 as int, r[k].1 as int) == lines(v@)[k]
            },
{
    let mut r: Vec<(usize, usize)> = Vec::new();
    let ghost mut done: Seq<Seq<char>> = seq![];
    let mut start: usize = 0;
    let mut i: usize = 0;
    while i < v.len()
        invariant
            start <= i <= v.len(),
            line_split(v@.take(i as int)).0 == done,
            done.len() == r.len(),
            line_split(v@.take(i as int)).1 == v@.subrange(start as int, i as int),
            forall|k: int|
                #![trigger r[k]]
                0 <= k < r.len() ==> {
                    &&& r[k].0 <= r[k].1 <= v.len()
                    &&& v@.subrange(r[k].0 as int, r[k].1 as int) == done[k]
                },
        decreases v.len() - i,
    {
        let ghost prev = line_split(v@.take(i as int));
        assert(v@.take(i + 1).drop_last() =~= v@.take(i as int));
        assert(v@.take(i + 1).last() == v@[i as int]);
        if v[i] == '\n' {
            let end = if i > start && v[i - 1] == '\r' {
                i - 1
            } else {
                i
            };
            assert(v@.subrange(start as int, end as int) =~= strip_cr(
                v@.subrange(start as int, i as int),
            ));
            assert(line_split(v@.take(i + 1)) == (
            prev.0.push(strip_cr(prev.1)), Seq::<char>::empty()));
            r.push((start, end));
            proof {
                done = done.push(strip_cr(prev.1));
            }
            start = i + 1;
            i += 1;
            assert(v@.subrange(start as int, i as int) =~= Seq::<char>::empty());
        } else {
            assert(line_split(v@.take(i + 1)) == (prev.0, prev.1.push(v@[i as int])));
            i += 1;
            assert(v@.subrange(start as int, i as int) =~= v@.subrange(start as int, i - 1).push(
                v@[i - 1],
            ));
        }
    }
    assert(v@.take(v.len() as int) =~= v@);
    if start < v.len() {
        r.push((start, v.len()));
    }
    r
}

// ---------------------------------------------------------------------
// split on a character
// ---------------------------------------------------------------------

/// The finished pieces of `s` split at `c`, and the piece still open at its end.
pub open spec fn split_fold(s: Seq<char>, c: char) -> (Seq<Seq<char>>, Seq<char>)
    decreases s.len(),
{
    if s.len() == 0 {
        (seq![], seq![])
    } else {
        let (done, cur) = split_fold(s.drop_last(), c);
        if s.last() == c {
            (done.push(cur), seq![])
        } else {
            (done, cur.push(s.last()))
        }
    }
}

/// `str::split` with a character pattern: always at least one piece.
pub open spec fn split(s: Seq<char>, c: char) -> Seq<Seq<char>> {
    let (done, cur) = split_fold(s, c);
    done.push(cur)
}

/// The bounds within `v` of each of `split(v, c)`.
pub fn split_ranges(v: &Vec<char>, c: char) -> (r: Vec<(usize, usize)>)
    ensures
        r.len() == split(v@, c).len(),
        forall|k: int|
            #![trigger r[k]]
            0 <= k < r.len() ==> {
                &&& r[k].0 <= r[k].1 <= v.len()
                &&& v@.subrange(r[k].0 as int, r[k].1 as int) == split(v@, c)[k]
            },
{
    let mut r: Vec<(usize, usize)> = Vec::new();
    let ghost mut done: Seq<Seq<char>> = seq![];
    let mut start: usize = 0;
    let mut i: usize = 0;
    while i < v.len()
        invariant
            start <= i <= v.len(),
            split_fold(v@.take(i as int), c).0 == done,
            done.len() == r.len(),
            split_fold(v@.take(i as int), c).1 == v@.subrange(start as int, i as int),
            forall|k: int|
                #![trigger r[k]]
                0 <= k < r.len() ==> {
                    &&& r[k].0 <= r[k].1 <= v.len()
                    &&& v@.subrange(r[k].0 as int, r[k].1 as int) == done[k]
                },
        decreases v.len() - i,
    {
        let ghost prev = split_fold(v@.take(i as int), c);
        assert(v@.take(i + 1).drop_last() =~= v@.take(i as int));
        assert(v@.take(i + 1).last() == v@[i as int]);
        if v[i] == c {
            assert(split_fold(v@.take(i + 1), c) == (prev.0.push(prev.1), Seq::<char>::empty()));
            r.push((start, i));
            proof {
                done = done.push(prev.1);
            }
            start = i + 1;
            i += 1;
            assert(v@.subrange(start as int, i as int) =~= Seq::<char>::empty());
        } else {
            assert(split_fold(v@.take(i + 1), c) == (prev.0, prev.1.push(v@[i as int])));
            i += 1;
            assert(v@.subrange(start as int, i as int) =~= v@.subrange(start as int, i - 1).push(
                v@[i - 1],
            ));
        }
    }
    assert(v@.take(v.len() as int) =~= v@);
    r.push((start, v.len()));
    r
}

// ---------------------------------------------------------------------
// split_whitespace + join
// ---------------------------------------------------------------------

/// `str::split_whitespace`: the maximal runs of non-whitespace characters.
pub open spec fn words(s: Seq<char>) -> Seq<Seq<char>>
    decreases s.len(),
{
    if s.len() == 0 {
        seq![]
    } else {
        let w = words(s.drop_last());
        let c = s.last();
        if is_ws(c) {
            w
        } else if s.len() >= 2 && !is_ws(s[s.len() - 2]) {
            w.update(w.len() - 1, w.last().push(c))
        } else {
            w.push(seq![c])
        }
    }
}

/// `join` of string slices with a separator.
pub open spec fn join(parts: Seq<Seq<char>>, sep: Seq<char>) -> Seq<char>
    decreases parts.len(),
{
    if parts.len() == 0 {
        seq![]
    } else if parts.len() == 1 {
        parts[0]
    } else {
        join(parts.drop_last(), sep) + sep + parts.last()
    }
}

pub proof fn lemma_words_nonempty(s: Seq<char>)
    requires
        s.len() > 0,
        !is_ws(s.last()),
    ensures
        words(s).len() > 0,
    decreases s.len(),
{
    if s.len() >= 2 && !is_ws(s[s.len() - 2]) {
        assert(s.drop_last().last() == s[s.len() - 2]);
        lemma_words_nonempty(s.drop_last());
    }
}

/// `s.split_whitespace().collect::<Vec<_>>().join(" ")`.
pub fn collapse_whitespace(s: &str) -> (r: String)
    ensures
        r@ == join(words(s@), seq![' ']),
{
    let v = chars_of(s);
    let mut r = String::new();
    let mut any = false;
    let mut i: usize = 0;
    while i < v.len()
        invariant
            i <= v.len(),
            v@ == s@,
            r@ == join(words(v@.take(i as int)), seq![' ']),
            any == (words(v@.take(i as int)).len() > 0),
        decreases v.len() - i,
    {
        let c = v[i];
        let ghost w = words(v@.take(i as int));
        assert(v@.take(i + 1).drop_last() =~= v@.take(i as int));
        if is_whitespace(c) {
        } else if i > 0 && !is_whitespace(v[i - 1]) {
            proof {
                assert(v@.take(i as int).last() == v@[i - 1]);
                lemma_words_nonempty(v@.take(i as int));
                let w2 = w.update(w.len() - 1, w.last().push(c));
                if w.len() > 1 {
                    assert(w2.drop_last() =~= w.drop_last());
                }
                assert(join(w2, seq![' ']) =~= join(w, seq![' ']).push(c));
            }
            string_push(&mut r, c);
        } else {
            proof {
                let w2 = w.push(seq![c]);
                assert(w2.drop_last() =~= w);
                if w.len() == 0 {
                    assert(join(w2, seq![' ']) =~= seq![c]);
                } else {
                    assert(join(w2, seq![' ']) =~= join(w, seq![' ']).push(' ').push(c));
                }
            }
            if any {
                string_push(&mut r, ' ');
            }
            string_push(&mut r, c);
            any = true;
        }
        i += 1;
    }
    assert(v@.take(v.len() as int) =~= v@);
    r
}

} // verus!

verus! {

pub proof fn lemma_lower_char_hex(c: char)
    ensures
        is_hex_digit(c) ==> is_hex_digit(lower_char(c)),
        is_hex_digit(c) ==> lower_char(lower_char(c)) == lower_char(c),
        is_hex_digit(c) ==> !is_upper(lower_char(c)),
{
    if is_upper(c) {
        let u = c as u32;
        assert(65 <= u <= 90);
        let d = (u + 32) as char;
        assert(d as u32 == u + 32);
    }
}

} // verus!

verus! {

pub open spec fn is_word(w: Seq<char>) -> bool {
    w.len() > 0 && forall|i: int| 0 <= i < w.len() ==> !is_ws(#[trigger] w[i])
}

/// Every word is non-empty and holds no whitespace.
pub proof fn lemma_words_are_words(s: Seq<char>)
    ensures
        forall|i: int| 0 <= i < words(s).len() ==> is_word(#[trigger] words(s)[i]),
    decreases s.len(),
{
    if s.len() > 0 {
        lemma_words_are_words(s.drop_last());
        let w = words(s.drop_last());
        let c = s.last();
        if !is_ws(c) && s.len() >= 2 && !is_ws(s[s.len() - 2]) {
            assert(s.drop_last().last() == s[s.len() - 2]);
            lemma_words_nonempty(s.drop_last());
            let last = w.last().push(c);
            assert(is_word(w[w.len() - 1]));
            assert forall|i: int| 0 <= i < last.len() implies !is_ws(#[trigger] last[i]) by {
                if i < last.len() - 1 {
                    assert(last[i] == w.last()[i]);
                }
            }
        }
    }
}

proof fn lemma_words_of_word(w: Seq<char>)
    requires
        is_word(w),
    ensures
        words(w) == seq![w],
    decreases w.len(),
{
    assert(!is_ws(w[w.len() - 1]));
    if w.len() == 1 {
        assert(w.drop_last() =~= Seq::<char>::empty());
        assert(words(w.drop_last()) =~= Seq::<Seq<char>>::empty());
        assert(words(w) == words(w.drop_last()).push(seq![w.last()]));
        assert(seq![w.last()] =~= w);
        assert(words(w) =~= seq![w]);
    } else {
        let p = w.drop_last();
        assert forall|i: int| 0 <= i < p.len() implies !is_ws(#[trigger] p[i]) by {
            assert(p[i] == w[i]);
        }
        lemma_words_of_word(p);
        assert(!is_ws(w[w.len() - 2]));
        let wp = words(p);
        assert(words(w) == wp.update(wp.len() - 1, wp.last().push(w.last())));
        assert(p.push(w.last()) =~= w);
        assert(words(w) =~= seq![w]);
    }
}

proof fn lemma_words_space_word(s: Seq<char>, w: Seq<char>)
    requires
        is_word(w),
    ensures
        words(s + seq![' '] + w) == words(s).push(w),
    decreases w.len(),
{
    let sp = s + seq![' '];
    assert(sp.drop_last() =~= s);
    assert(sp.last() == ' ');
    assert(is_ws(sp.last()));
    assert(words(sp) == words(s));
    if w.len() == 1 {
        let t = sp + w;
        assert(t.drop_last() =~= sp);
        assert(!is_ws(w[0]));
        assert(t.last() == w[0]);
        assert(t[t.len() - 2] == ' ');
        assert(words(t) == words(sp).push(seq![t.last()]));
        assert(seq![t.last()] =~= w);
        assert(s + seq![' '] + w == t);
    } else {
        let p = w.drop_last();
        assert forall|i: int| 0 <= i < p.len() implies !is_ws(#[trigger] p[i]) by {
            assert(p[i] == w[i]);
        }
        lemma_words_space_word(s, p);
        let t = sp + w;
        assert(t.drop_last() =~= sp + p);
        assert(t.last() == w.last());
        assert(!is_ws(w[w.len() - 1]));
        assert(t[t.len() - 2] == w[w.len() - 2]);
        assert(!is_ws(w[w.len() - 2]));
        assert(p.push(w.last()) =~= w);
        let wp = words(sp + p);
        assert(words(t) == wp.update(wp.len() - 1, wp.last().push(t.last())));
        assert(words(s).push(p).update(words(s).len() as int, p.push(w.last())) =~= words(s).push(
            w,
        ));
        assert(s + seq![' '] + w == t);
    }
}

/// Splitting a space-joined list of words gives the words back.
pub proof fn lemma_words_of_join(ws: Seq<Seq<char>>)
    requires
        forall|i: int| 0 <= i < ws.len() ==> is_word(#[trigger] ws[i]),
    ensures
        words(join(ws, seq![' '])) == ws,
    decreases ws.len(),
{
    if ws.len() == 0 {
    } else if ws.len() == 1 {
        assert(is_word(ws[0]));
        lemma_words_of_word(ws[0]);
        assert(seq![ws[0]] =~= ws);
    } else {
        let p = ws.drop_last();
        assert forall|i: int| 0 <= i < p.len() implies is_word(#[trigger] p[i]) by {
            assert(p[i] == ws[i]);
        }
        lemma_words_of_join(p);
        assert(is_word(ws[ws.len() - 1]));
        lemma_words_space_word(join(p, seq![' ']), ws.last());
        assert(p.push(ws.last()) =~= ws);
    }
}

} // verus!

verus! {

proof fn lemma_line_split_no_newline(s: Seq<char>)
    ensures
        ({
            let (done, cur) = line_split(s);
            &&& !cur.contains('\n')
            &&& forall|i: int| 0 <= i < done.len() ==> !(#[trigger] done[i]).contains('\n')
        }),
    decreases s.len(),
{
    if s.len() > 0 {
        lemma_line_split_no_newline(s.drop_last());
        let (done, cur) = line_split(s.drop_last());
        if s.last() == '\n' {
            let x = strip_cr(cur);
            assert forall|k: int| 0 <= k < x.len() implies x[k] != '\n' by {
                assert(x[k] == cur[k]);
            }
        } else {
            let c2 = cur.push(s.last());
            assert forall|k: int| 0 <= k < c2.len() implies c2[k] != '\n' by {
                if k < cur.len() {
                    assert(c2[k] == cur[k]);
                }
            }
        }
    }
}

/// No line holds a line feed.
pub proof fn lemma_lines_have_no_newline(s: Seq<char>)
    ensures
        forall|i: int| 0 <= i < lines(s).len() ==> !(#[trigger] lines(s)[i]).contains('\n'),
{
    lemma_line_split_no_newline(s);
}

/// The lines of `ls`, each followed by a line feed.
pub open spec fn terminated(ls: Seq<Seq<char>>) -> Seq<char>
    decreases ls.len(),
{
    if ls.len() == 0 {
        seq![]
    } else {
        terminated(ls.drop_last()) + ls.last() + seq!['\n']
    }
}

/// Whether a carriage return stands right before a line feed somewhere in `s`.
pub open spec fn has_crlf(s: Seq<char>) -> bool {
    exists|i: int| 0 <= i < s.len() - 1 && #[trigger] s[i] == '\r' && s[i + 1] == '\n'
}

proof fn lemma_line_split_rebuilds(s: Seq<char>)
    requires
        !has_crlf(s),
    ensures
        terminated(line_split(s).0) + line_split(s).1 == s,
    decreases s.len(),
{
    if s.len() > 0 {
        let p = s.drop_last();
        assert(!has_crlf(p)) by {
            if has_crlf(p) {
                let i = choose|i: int| 0 <= i < p.len() - 1 && #[trigger] p[i] == '\r' && p[i + 1] == '\n';
                assert(s[i] == '\r' && s[i + 1] == '\n');
            }
        }
        lemma_line_split_rebuilds(p);
        let (done, cur) = line_split(p);
        if s.last() == '\n' {
            if cur.len() > 0 {
                let k = s.len() - 2;
                assert(p[k] == cur.last());
                assert(s[k] == p[k]);
                assert(s[k + 1] == '\n');
                assert(s[k] != '\r');
            }
            assert(strip_cr(cur) == cur);
            let d2 = done.push(cur);
            assert(d2.drop_last() =~= done);
            assert(terminated(d2) == terminated(done) + cur + seq!['\n']);
            assert(terminated(d2) + seq![] =~= s);
        } else {
            assert(s =~= p.push(s.last()));
            assert(terminated(done) + cur.push(s.last()) =~= (terminated(done) + cur).push(s.last()));
        }
    }
}

proof fn lemma_terminated_join(ls: Seq<Seq<char>>)
    requires
        ls.len() > 0,
    ensures
        terminated(ls) == join(ls, seq!['\n']) + seq!['\n'],
    decreases ls.len(),
{
    if ls.len() > 1 {
        lemma_terminated_join(ls.drop_last());
    } else {
        assert(ls.drop_last().len() == 0);
        assert(terminated(ls.drop_last()) == Seq::<char>::empty());
        assert(terminated(ls) =~= ls[0] + seq!['\n']);
    }
}

/// Joining the lines of `s` with line feeds gives `s` back, but for a final
/// line feed, wherever no carriage return stands before a line feed; text
/// without a line feed is one line.
pub proof fn lemma_lines_join(s: Seq<char>)
    requires
        !has_crlf(s),
    ensures
        join(lines(s), seq!['\n']) + (if s.len() > 0 && s.last() == '\n' {
            seq!['\n']
        } else {
            Seq::<char>::empty()
        }) == s,
        s.len() > 0 && !s.contains('\n') ==> lines(s) == seq![s],
{
    lemma_line_split_rebuilds(s);
    lemma_line_split_no_newline(s);
    let (done, cur) = line_split(s);
    if done.len() > 0 {
        lemma_terminated_join(done);
        let t = terminated(done);
        assert(t.last() == '\n');
        assert(s[t.len() - 1] == t[t.len() - 1]);
    }
    if cur.len() > 0 {
        let ls = done.push(cur);
        assert(ls.drop_last() =~= done);
        assert(s.last() == cur.last());
        assert(cur.contains(cur.last()));
        if done.len() == 0 {
            assert(terminated(done) == Seq::<char>::empty());
            assert(join(ls, seq!['\n']) == cur);
            assert(cur =~= s);
        } else {
            assert(join(ls, seq!['\n']) == join(done, seq!['\n']) + seq!['\n'] + cur);
        }
        assert(join(ls, seq!['\n']) + Seq::<char>::empty() =~= s);
    } else {
        assert(terminated(done) + cur =~= terminated(done));
        if done.len() == 0 {
            assert(terminated(done) == Seq::<char>::empty());
            assert(join(done, seq!['\n']) + Seq::<char>::empty() =~= s);
        }
    }
    if s.len() > 0 && !s.contains('\n') {
        assert(done.len() == 0);
        assert(cur =~= s);
        assert(lines(s) =~= seq![s]);
    }
}

/// Trimming keeps only characters of the string.
pub proof fn lemma_trim_within(s: Seq<char>, c: char)
    ensures
        trim(s).contains(c) ==> s.contains(c),
{
    lemma_trim_start_within(s, c);
    lemma_trim_end_within(trim_start(s), c);
}

proof fn lemma_trim_start_within(s: Seq<char>, c: char)
    ensures
        trim_start(s).contains(c) ==> s.contains(c),
    decreases s.len(),
{
    if s.len() > 0 && is_ws(s[0]) {
        lemma_trim_start_within(s.drop_first(), c);
        if s.drop_first().contains(c) {
            let k = choose|k: int| 0 <= k < s.drop_first().len() && s.drop_first()[k] == c;
            assert(s[k + 1] == c);
        }
    }
}

proof fn lemma_trim_end_within(s: Seq<char>, c: char)
    ensures
        trim_end(s).contains(c) ==> s.contains(c),
    decreases s.len(),
{
    if s.len() > 0 && is_ws(s.last()) {
        lemma_trim_end_within(s.drop_last(), c);
        if s.drop_last().contains(c) {
            let k = choose|k: int| 0 <= k < s.drop_last().len() && s.drop_last()[k] == c;
            assert(s[k] == c);
        }
    }
}

} // verus!

verus! {

/// Trimming twice is trimming once.
pub proof fn lemma_trim_idempotent(s: Seq<char>)
    ensures
        trim(trim(s)) == trim(s),
    decreases s.len(),
{
    let t = trim(s);
    lemma_trim_start_ends(s);
    lemma_trim_end_keeps_start(trim_start(s));
    if t.len() > 0 {
        assert(trim_start(t) == t);
        assert(trim_end(t) == t);
    }
}

proof fn lemma_trim_start_ends(s: Seq<char>)
    ensures
        trim_start(s).len() > 0 ==> !is_ws(trim_start(s)[0]),
    decreases s.len(),
{
    if s.len() > 0 && is_ws(s[0]) {
        lemma_trim_start_ends(s.drop_first());
    }
}

proof fn lemma_trim_end_keeps_start(s: Seq<char>)
    ensures
        trim_end(s).len() > 0 ==> trim_end(s)[0] == s[0] && !is_ws(trim_end(s).last()),
    decreases s.len(),
{
    if s.len() > 0 && is_ws(s.last()) {
        lemma_trim_end_keeps_start(s.drop_last());
    }
}

} // verus!
