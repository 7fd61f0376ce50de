//! Character-level text primitives shared by the whole library.
//!
//! Strings are handled as sequences of Unicode scalar values (`Seq<char>`),
//! which is what `String`'s view is in vstd.
use vstd::prelude::*;
use vstd::string::*;

verus! {

/// The characters of a string slice, in order.
pub fn chars_of(s: &str) -> (v: Vec<char>)
    ensures
        v@ == s@,
{
    let mut v: Vec<char> = Vec::new();
    for c in it: s.chars()
        invariant
            v@ == it.seq().take(it.index() as int),
            it.seq() == s@,
    {
        v.push(c);
    }
    v
}

/// Appends one character to a string (`String::push`).
#[verifier::external_body]
pub(crate) fn push_char(s: &mut String, c: char)
    ensures
        final(s)@ == old(s)@.push(c),
{
    s.push(c)
}

/// Appends a string slice to a string.
pub fn push_str(s: &mut String, t: &str)
    ensures
        final(s)@ == old(s)@ + t@,
{
    s.append(t);
}

/// A string made of the given characters.
pub fn string_of(cs: &[char]) -> (s: String)
    ensures
        s@ == cs@,
{
    let mut s = String::new();
    let mut i: usize = 0;
    while i < cs.len()
        invariant
            i <= cs@.len(),
            s@ == cs@.take(i as int),
        decreases cs@.len() - i,
    {
        push_char(&mut s, cs[i]);
        assert(cs@.take(i + 1) == cs@.take(i as int).push(cs@[i as int]));
        i += 1;
    }
    assert(cs@.take(cs@.len() as int) == cs@);
    s
}

/// A string made of the characters `cs[from..to]`.
pub fn string_of_range(cs: &[char], from: usize, to: usize) -> (s: String)
    requires
        from <= to <= cs@.len(),
    ensures
        s@ == cs@.subrange(from as int, to as int),
{
    let mut s = String::new();
    let mut i: usize = from;
    while i < to
        invariant
            from <= i <= to <= cs@.len(),
            s@ == cs@.subrange(from as int, i as int),
        decreases to - i,
    {
        push_char(&mut s, cs[i]);
        assert(cs@.subrange(from as int, i + 1) == cs@.subrange(from as int, i as int).push(
            cs@[i as int],
        ));
        i += 1;
    }
    s
}

/// A copy of a string.
pub fn copy_string(s: &String) -> (r: String)
    ensures
        r@ == s@,
{
    s.clone()
}

/// What `str::to_lowercase` returns for a string: its Unicode lowercase
/// mapping, which depends on the characters alone.
pub uninterp spec fn lowercase_of(s: Seq<char>) -> Seq<char>;

/// What `str::to_uppercase` returns for a string: its Unicode uppercase
/// mapping, which depends on the characters alone.
pub uninterp spec fn uppercase_of(s: Seq<char>) -> Seq<char>;

/// What `char::is_alphanumeric` returns: whether the character has the
/// Unicode Alphabetic or Numeric property.
pub uninterp spec fn alphanumeric(c: char) -> bool;

/// Calls `str::to_lowercase`; the result is named by `lowercase_of`.
#[verifier::external_body]
pub(crate) fn to_lowercase(s: &str) -> (r: String)
    ensures
        r@ == lowercase_of(s@),
{
    s.to_lowercase()
}

/// Calls `str::to_uppercase`; the result is named by `uppercase_of`.
#[verifier::external_body]
pub(crate) fn to_uppercase(s: &str) -> (r: String)
    ensures
        r@ == uppercase_of(s@),
{
    s.to_uppercase()
}

/// Calls `char::is_alphanumeric`; the result is named by `alphanumeric`.
#[verifier::external_body]
pub(crate) fn is_alphanumeric(c: char) -> (b: bool)
    ensures
        b == alphanumeric(c),
{
    c.is_alphanumeric()
}

/// What `format!("{:?}", s)` gives for a string: the string between double
/// quotes, with Rust's escapes.
pub uninterp spec fn debug_quoted(s: Seq<char>) -> Seq<char>;

/// Formats a string with `{:?}`; the result is named by `debug_quoted`.
#[verifier::external_body]
pub(crate) fn debug_str(s: &str) -> (r: String)
    ensures
        r@ == debug_quoted(s@),
{
    format!("{:?}", s)
}

/// The Unicode `White_Space` property (the characters `char::is_whitespace`
/// accepts).
pub open spec fn white_space(c: char) -> bool {
    ||| ('\u{9}' <= c && c <= '\u{d}')
    ||| c == ' '
    ||| c == '\u{85}'
    ||| c == '\u{a0}'
    ||| c == '\u{1680}'
    ||| ('\u{2000}' <= c && c <= '\u{200a}')
    ||| c == '\u{2028}'
    ||| c == '\u{2029}'
    ||| c == '\u{202f}'
    ||| c == '\u{205f}'
    ||| c == '\u{3000}'
}

/// Whether `c` is a white-space character.
pub fn is_white_space(c: char) -> (b: bool)
    ensures
        b == white_space(c),
{
    ('\u{9}' <= c && c <= '\u{d}') || c == ' ' || c == '\u{85}' || c == '\u{a0}' || c
        == '\u{1680}' || ('\u{2000}' <= c && c <= '\u{200a}') || c == '\u{2028}' || c
        == '\u{2029}' || c == '\u{202f}' || c == '\u{205f}' || c == '\u{3000}'
}

pub open spec fn ascii_digit(c: char) -> bool {
    '0' <= c && c <= '9'
}

pub open spec fn ascii_alpha(c: char) -> bool {
    ('a' <= c && c <= 'z') || ('A' <= c && c <= 'Z')
}

pub open spec fn ascii_hex_digit(c: char) -> bool {
    ascii_digit(c) || ('a' <= c && c <= 'f') || ('A' <= c && c <= 'F')
}

pub fn is_ascii_digit(c: char) -> (b: bool)
    ensures
        b == ascii_digit(c),
{
    '0' <= c && c <= '9'
}

pub fn is_ascii_alpha(c: char) -> (b: bool)
    ensures
        b == ascii_alpha(c),
{
    ('a' <= c && c <= 'z') || ('A' <= c && c <= 'Z')
}

pub fn is_ascii_hex_digit(c: char) -> (b: bool)
    ensures
        b == ascii_hex_digit(c),
{
    ('0' <= c && c <= '9') || ('a' <= c && c <= 'f') || ('A' <= c && c <= 'F')
}

/// Number of leading white-space characters of `s`.
pub open spec fn lead_ws(s: Seq<char>) -> nat
    decreases s.len(),
{
    if s.len() > 0 && white_space(s[0]) {
        1 + lead_ws(s.drop_first())
    } else {
        0
    }
}

/// Number of trailing white-space characters of `s`.
pub open spec fn trail_ws(s: Seq<char>) -> nat
    decreases s.len(),
{
    if s.len() > 0 && white_space(s.last()) {
        1 + trail_ws(s.drop_last())
    } else {
        0
    }
}

/// `s` without trailing white space (`str::trim_end`).
pub open spec fn trim_end_of(s: Seq<char>) -> Seq<char> {
    s.take(s.len() - trail_ws(s))
}

/// `s` without leading and trailing white space (`str::trim`).
pub open spec fn trim_of(s: Seq<char>) -> Seq<char> {
    trim_end_of(s).skip(lead_ws(trim_end_of(s)) as int)
}

pub proof fn lemma_lead_ws(s: Seq<char>, i: int)
    requires
        0 <= i <= s.len(),
        forall|j: int| 0 <= j < i ==> white_space(#[trigger] s[j]),
        i == s.len() || !white_space(s[i]),
    ensures
        lead_ws(s) == i,
    decreases i,
{
    if i > 0 {
        lemma_lead_ws(s.drop_first(), i - 1);
    }
}

pub proof fn lemma_trail_ws(s: Seq<char>, i: int)
    requires
        0 <= i <= s.len(),
        forall|j: int| s.len() - i <= j < s.len() ==> white_space(#[trigger] s[j]),
        i == s.len() || !white_space(s[s.len() - i - 1]),
    ensures
        trail_ws(s) == i,
    decreases i,
{
    if i > 0 {
        lemma_trail_ws(s.drop_last(), i - 1);
    }
}

pub proof fn lemma_lead_ws_bound(s: Seq<char>)
    ensures
        lead_ws(s) <= s.len(),
    decreases s.len(),
{
    if s.len() > 0 && white_space(s[0]) {
        lemma_lead_ws_bound(s.drop_first());
    }
}

pub proof fn lemma_trail_ws_bound(s: Seq<char>)
    ensures
        trail_ws(s) <= s.len(),
    decreases s.len(),
{
    if s.len() > 0 && white_space(s.last()) {
        lemma_trail_ws_bound(s.drop_last());
    }
}

/// Index of the first character of `cs[from..]` that is not white space.
pub fn skip_white_space(cs: &[char], from: usize) -> (r: usize)
    requires
        from <= cs@.len(),
    ensures
        from <= r <= cs@.len(),
        r == from + lead_ws(cs@.skip(from as int)),
{
    let mut i = from;
    while i < cs.len() && is_white_space(cs[i])
        invariant
            from <= i <= cs@.len(),
            forall|j: int| from <= j < i ==> white_space(#[trigger] cs@[j]),
        decreases cs@.len() - i,
    {
        i += 1;
    }
    proof {
        let t = cs@.skip(from as int);
        assert forall|j: int| 0 <= j < i - from implies white_space(#[trigger] t[j]) by {
            assert(t[j] == cs@[from + j]);
        }
        lemma_lead_ws(t, i - from);
    }
    i
}

/// The characters of `cs` without leading and trailing white space.
pub fn trim_chars(cs: &[char]) -> (r: Vec<char>)
    ensures
        r@ == trim_of(cs@),
{
    let mut end = cs.len();
    while end > 0 && is_white_space(cs[end - 1])
        invariant
            end <= cs@.len(),
            forall|j: int| end <= j < cs@.len() ==> white_space(#[trigger] cs@[j]),
        decreases end,
    {
        end -= 1;
    }
    proof {
        lemma_trail_ws(cs@, cs@.len() - end);
    }
    let mut start: usize = 0;
    while start < end && is_white_space(cs[start])
        invariant
            start <= end <= cs@.len(),
            forall|j: int| 0 <= j < start ==> white_space(#[trigger] cs@[j]),
        decreases end - start,
    {
        start += 1;
    }
    proof {
        let t = trim_end_of(cs@);
        assert(t.len() == end);
        assert forall|j: int| 0 <= j < start implies white_space(#[trigger] t[j]) by {
            assert(t[j] == cs@[j]);
        }
        lemma_lead_ws(t, start as int);
    }
    let mut r: Vec<char> = Vec::new();
    let mut i = start;
    while i < end
        invariant
            start <= i <= end <= cs@.len(),
            r@ == cs@.subrange(start as int, i as int),
        decreases end - i,
    {
        r.push(cs[i]);
        i += 1;
    }
    assert(r@ =~= trim_of(cs@));
    r
}

/// `s` with white space removed at both ends (`str::trim`).
pub fn trim(s: &str) -> (r: String)
    ensures
        r@ == trim_of(s@),
{
    let cs = chars_of(s);
    let t = trim_chars(cs.as_slice());
    string_of(t.as_slice())
}

/// `s` with trailing white space removed (`str::trim_end`).
pub fn trim_end_chars(cs: &[char]) -> (r: Vec<char>)
    ensures
        r@ == trim_end_of(cs@),
{
    let mut end = cs.len();
    while end > 0 && is_white_space(cs[end - 1])
        invariant
            end <= cs@.len(),
            forall|j: int| end <= j < cs@.len() ==> white_space(#[trigger] cs@[j]),
        decreases end,
    {
        end -= 1;
    }
    proof {
        lemma_trail_ws(cs@, cs@.len() - end);
    }
    let mut r: Vec<char> = Vec::new();
    let mut i: usize = 0;
    while i < end
        invariant
            i <= end <= cs@.len(),
            r@ == cs@.take(i as int),
        decreases end - i,
    {
        r.push(cs[i]);
        assert(cs@.take(i + 1) == cs@.take(i as int).push(cs@[i as int]));
        i += 1;
    }
    r
}

/// Whether `needle` occurs in `hay` starting at position `i`.
pub open spec fn occurs_at(hay: Seq<char>, needle: Seq<char>, i: int) -> bool {
    0 <= i && i + needle.len() <= hay.len() && hay.subrange(i, i + needle.len()) == needle
}

/// Whether `needle` occurs anywhere in `hay` (`str::contains`).
pub open spec fn contains_seq(hay: Seq<char>, needle: Seq<char>) -> bool {
    exists|i: int| occurs_at(hay, needle, i)
}

/// Position of the first occurrence of `needle` in `hay` at or after `from`
/// (`str::find` on a suffix), or `None`.
pub open spec fn find_from(hay: Seq<char>, needle: Seq<char>, from: int) -> Option<int>
    decreases hay.len() + 1 - from,
{
    if from < 0 || from + needle.len() > hay.len() {
        None
    } else if occurs_at(hay, needle, from) {
        Some(from)
    } else {
        find_from(hay, needle, from + 1)
    }
}

pub proof fn lemma_find_from(hay: Seq<char>, needle: Seq<char>, from: int)
    requires
        0 <= from,
    ensures
        find_from(hay, needle, from) matches Some(k) ==> from <= k && occurs_at(hay, needle, k)
            && forall|j: int| from <= j < k ==> !occurs_at(hay, needle, j),
        find_from(hay, needle, from) is None ==> forall|j: int|
            from <= j ==> !occurs_at(hay, needle, j),
    decreases hay.len() + 1 - from,
{
    if from + needle.len() > hay.len() {
    } else if occurs_at(hay, needle, from) {
    } else {
        lemma_find_from(hay, needle, from + 1);
        assert forall|j: int| from <= j < from + 1 implies !occurs_at(hay, needle, j) by {}
    }
}

/// Whether `needle` occurs in `hay` at position `i` (exec).
pub fn matches_at(hay: &[char], needle: &[char], i: usize) -> (b: bool)
    ensures
        b == occurs_at(hay@, needle@, i as int),
{
    let hl = hay.len();
    if needle.len() > hl || i > hl - needle.len() {
        return false;
    }
    let mut j: usize = 0;
    while j < needle.len()
        invariant
            j <= needle@.len(),
            i + needle@.len() <= hay@.len(),
            hl == hay@.len(),
            forall|k: int| 0 <= k < j ==> hay@[i + k] == needle@[k],
        decreases needle@.len() - j,
    {
        if hay[i + j] != needle[j] {
            assert(hay@.subrange(i as int, i + needle@.len())[j as int] != needle@[j as int]);
            return false;
        }
        j += 1;
    }
    assert(hay@.subrange(i as int, i + needle@.len()) =~= needle@);
    true
}

/// First position at or after `from` where `needle` occurs in `hay`.
pub fn find_chars(hay: &[char], needle: &[char], from: usize) -> (r: Option<usize>)
    ensures
        r matches Some(k) ==> find_from(hay@, needle@, from as int) == Some(k as int),
        r is None ==> find_from(hay@, needle@, from as int) is None,
{
    if needle.len() > hay.len() {
        proof { lemma_find_none(hay@, needle@, from as int); }
        return None;
    }
    if needle.len() == 0 {
        if from <= hay.len() {
            assert(occurs_at(hay@, needle@, from as int)) by {
                assert(hay@.subrange(from as int, from as int) =~= needle@);
            }
            return Some(from);
        }
        return None;
    }
    let limit = hay.len() - needle.len() + 1;
    let mut i = from;
    while i < limit
        invariant
            from <= i,
            0 < needle@.len() <= hay@.len(),
            limit == hay@.len() - needle@.len() + 1,
            find_from(hay@, needle@, from as int) == find_from(hay@, needle@, i as int),
        decreases limit - i,
    {
        if matches_at(hay, needle, i) {
            return Some(i);
        }
        i += 1;
    }
    None
}

proof fn lemma_find_none(hay: Seq<char>, needle: Seq<char>, from: int)
    requires
        needle.len() > hay.len(),
    ensures
        find_from(hay, needle, from) is None,
{
}

/// Whether `needle` occurs in `hay`.
pub fn contains_chars(hay: &[char], needle: &[char]) -> (b: bool)
    ensures
        b == contains_seq(hay@, needle@),
{
    let r = find_chars(hay, needle, 0);
    proof {
        lemma_find_from(hay@, needle@, 0);
        if r is None {
            assert forall|i: int| !occurs_at(hay@, needle@, i) by {
                if 0 <= i {
                }
            }
        }
    }
    r.is_some()
}

/// Position of the first occurrence of character `c` at or after `from`.
pub open spec fn find_char_from(s: Seq<char>, c: char, from: int) -> Option<int>
    decreases s.len() - from,
{
    if from < 0 || from >= s.len() {
        None
    } else if s[from] == c {
        Some(from)
    } else {
        find_char_from(s, c, from + 1)
    }
}

pub proof fn lemma_find_char_from(s: Seq<char>, c: char, from: int)
    requires
        0 <= from,
    ensures
        find_char_from(s, c, from) matches Some(k) ==> from <= k < s.len() && s[k] == c
            && forall|j: int| from <= j < k ==> s[j] != c,
        find_char_from(s, c, from) is None ==> forall|j: int| from <= j < s.len() ==> s[j] != c,
    decreases s.len() - from,
{
    if from < s.len() && s[from] != c {
        lemma_find_char_from(s, c, from + 1);
    }
}

/// First position at or after `from` holding `c`.
pub fn find_char(s: &[char], c: char, from: usize) -> (r: Option<usize>)
    ensures
        r matches Some(k) ==> find_char_from(s@, c, from as int) == Some(k as int),
        r is None ==> find_char_from(s@, c, from as int) is None,
{
    let mut i = from;
    while i < s.len()
        invariant
            from <= i,
            find_char_from(s@, c, from as int) == find_char_from(s@, c, i as int),
        decreases s@.len() - i,
    {
        if s[i] == c {
            return Some(i);
        }
        i += 1;
    }
    None
}

/// Whether `s` starts with `p`.
pub open spec fn has_prefix(s: Seq<char>, p: Seq<char>) -> bool {
    p.len() <= s.len() && s.take(p.len() as int) == p
}

/// Whether `s` ends with `p`.
pub open spec fn has_suffix(s: Seq<char>, p: Seq<char>) -> bool {
    p.len() <= s.len() && s.skip(s.len() - p.len()) == p
}

pub fn starts_with_chars(s: &[char], p: &[char]) -> (b: bool)
    ensures
        b == has_prefix(s@, p@),
{
    let r = matches_at(s, p, 0);
    proof {
        if p@.len() <= s@.len() {
            assert(s@.subrange(0, p@.len() as int) == s@.take(p@.len() as int));
        }
    }
    r
}

pub fn ends_with_chars(s: &[char], p: &[char]) -> (b: bool)
    ensures
        b == has_suffix(s@, p@),
{
    if p.len() > s.len() {
        return false;
    }
    let r = matches_at(s, p, s.len() - p.len());
    proof {
        assert(s@.subrange(s@.len() - p@.len(), s@.len() as int) == s@.skip(
            s@.len() - p@.len(),
        ));
    }
    r
}

pub fn starts_with_str(s: &str, p: &str) -> (b: bool)
    ensures
        b == has_prefix(s@, p@),
{
    let a = chars_of(s);
    let b = chars_of(p);
    starts_with_chars(a.as_slice(), b.as_slice())
}

pub fn ends_with_str(s: &str, p: &str) -> (b: bool)
    ensures
        b == has_suffix(s@, p@),
{
    let a = chars_of(s);
    let b = chars_of(p);
    ends_with_chars(a.as_slice(), b.as_slice())
}

/// Whether two character slices are equal.
pub fn chars_eq(a: &[char], b: &[char]) -> (r: bool)
    ensures
        r == (a@ == b@),
{
    if a.len() != b.len() {
        assert(a@.len() != b@.len());
        return false;
    }
    let mut i: usize = 0;
    while i < a.len()
        invariant
            i <= a@.len() == b@.len(),
            forall|k: int| 0 <= k < i ==> a@[k] == b@[k],
        decreases a@.len() - i,
    {
        if a[i] != b[i] {
            assert(a@[i as int] != b@[i as int]);
            return false;
        }
        i += 1;
    }
    assert(a@ =~= b@);
    true
}

pub fn str_eq(a: &str, b: &str) -> (r: bool)
    ensures
        r == (a@ == b@),
{
    let x = chars_of(a);
    let y = chars_of(b);
    if x.len() != y.len() {
        assert(x@.len() != y@.len());
        return false;
    }
    let mut i: usize = 0;
    while i < x.len()
        invariant
            i <= x@.len(),
            x@.len() == y@.len(),
            x@ == a@,
            y@ == b@,
            forall|k: int| 0 <= k < i ==> x@[k] == y@[k],
        decreases x@.len() - i,
    {
        if x[i] != y[i] {
            assert(x@[i as int] != y@[i as int]);
            return false;
        }
        i += 1;
    }
    assert(x@ =~= y@);
    true
}

/// The lines of `s` as `str::lines` yields them: split at `\n`, a `\r`
/// right before the `\n` dropped, and no final empty line.
pub open spec fn lines_of(s: Seq<char>) -> Seq<Seq<char>>
    decreases s.len(),
{
    if s.len() == 0 {
        Seq::empty()
    } else {
        match find_char_from(s, '\n', 0) {
            None => seq![s],
            Some(k) => {
                let piece = s.take(k);
                let line = if piece.len() > 0 && piece.last() == '\r' {
                    piece.drop_last()
                } else {
                    piece
                };
                if 0 <= k < s.len() {
                    seq![line] + lines_of(s.skip(k + 1))
                } else {
                    seq![line]
                }
            },
        }
    }
}

/// The lines of `cs` (see `lines_of`).
pub fn lines(cs: &[char]) -> (r: Vec<Vec<char>>)
    ensures
        r@.len() == lines_of(cs@).len(),
        forall|i: int| 0 <= i < r@.len() ==> #[trigger] r@[i]@ == lines_of(cs@)[i],
{
    let mut r: Vec<Vec<char>> = Vec::new();
    let mut start: usize = 0;
    assert(cs@.skip(0) =~= cs@);
    assert(r@.map_values(|l: Vec<char>| l@) =~= Seq::<Seq<char>>::empty());
    while start < cs.len()
        invariant
            start <= cs@.len(),
            lines_of(cs@) == r@.map_values(|l: Vec<char>| l@) + lines_of(cs@.skip(start as int)),
        decreases cs@.len() - start,
    {
        let ghost rest = cs@.skip(start as int);
        let nl = find_char(cs, '\n', start);
        proof {
            lemma_find_char_from(cs@, '\n', start as int);
            lemma_find_char_from(rest, '\n', 0);
            lemma_find_char_shift(cs@, '\n', start as int);
        }
        let end = match nl {
            Some(k) => k,
            None => cs.len(),
        };
        let mut line_end = end;
        if nl.is_some() && end > start && cs[end - 1] == '\r' {
            line_end = end - 1;
        }
        let mut line: Vec<char> = Vec::new();
        let mut i = start;
        while i < line_end
            invariant
                start <= i <= line_end <= cs@.len(),
                line@ == cs@.subrange(start as int, i as int),
            decreases line_end - i,
        {
            line.push(cs[i]);
            i += 1;
        }
        let ghost old_r = r@;
        r.push(line);
        proof {
            assert(rest.len() > 0);
            match nl {
                Some(k) => {
                    let piece = rest.take(k - start);
                    assert(piece =~= cs@.subrange(start as int, k as int));
                    if line_end < end {
                        assert(line@ =~= piece.drop_last());
                    } else {
                        assert(line@ =~= piece);
                    }
                    assert(rest.skip(k - start + 1) =~= cs@.skip(k + 1));
                    assert(r@.map_values(|l: Vec<char>| l@) =~= old_r.map_values(
                        |l: Vec<char>| l@,
                    ).push(line@));
                },
                None => {
                    assert(line@ =~= rest);
                    assert(cs@.skip(cs@.len() as int) =~= Seq::<char>::empty());
                    assert(r@.map_values(|l: Vec<char>| l@) =~= old_r.map_values(
                        |l: Vec<char>| l@,
                    ).push(line@));
                },
            }
        }
        start = match nl {
            Some(k) => k + 1,
            None => cs.len(),
        };
    }
    proof {
        assert(cs@.skip(start as int) =~= Seq::<char>::empty());
        assert(lines_of(cs@) =~= r@.map_values(|l: Vec<char>| l@));
    }
    r
}

proof fn lemma_find_char_shift(s: Seq<char>, c: char, from: int)
    requires
        0 <= from <= s.len(),
    ensures
        find_char_from(s, c, from) == (match find_char_from(s.skip(from), c, 0) {
            Some(k) => Some(k + from),
            None => None,
        }),
    decreases s.len() - from,
{
    lemma_find_char_from(s, c, from);
    lemma_find_char_from(s.skip(from), c, 0);
    let t = s.skip(from);
    match find_char_from(s, c, from) {
        Some(k) => {
            assert(t[k - from] == c);
            assert forall|j: int| 0 <= j < k - from implies t[j] != c by {
                assert(t[j] == s[j + from]);
            }
            lemma_find_char_unique(t, c, k - from);
        },
        None => {
            assert forall|j: int| 0 <= j < t.len() implies t[j] != c by {
                assert(t[j] == s[j + from]);
            }
            lemma_find_char_none(t, c, 0);
        },
    }
}

proof fn lemma_find_char_unique(s: Seq<char>, c: char, k: int)
    requires
        0 <= k < s.len(),
        s[k] == c,
        forall|j: int| 0 <= j < k ==> s[j] != c,
    ensures
        find_char_from(s, c, 0) == Some(k),
{
    lemma_find_char_from(s, c, 0);
    match find_char_from(s, c, 0) {
        Some(k2) => {
            if k2 < k {
            } else if k2 > k {
            }
        },
        None => {},
    }
}

proof fn lemma_find_char_none(s: Seq<char>, c: char, from: int)
    requires
        0 <= from,
        forall|j: int| from <= j < s.len() ==> s[j] != c,
    ensures
        find_char_from(s, c, from) is None,
    decreases s.len() - from,
{
    if from < s.len() {
        lemma_find_char_none(s, c, from + 1);
    }
}

/// The decimal digits of `n`, most significant first (empty for zero).
pub open spec fn decimal_digits(n: nat) -> Seq<u8>
    decreases n,
{
    if n == 0 {
        Seq::empty()
    } else {
        decimal_digits(n / 10).push((n % 10) as u8)
    }
}

/// The character of a decimal digit.
pub open spec fn digit_char(d: u8) -> char {
    ((d as int) + ('0' as int)) as char
}

/// The characters of a digit sequence.
pub open spec fn digit_chars(ds: Seq<u8>) -> Seq<char> {
    ds.map_values(|d: u8| digit_char(d))
}

/// The decimal text of `n` (`"0"` for zero).
pub open spec fn nat_text(n: nat) -> Seq<char> {
    if n == 0 {
        seq!['0']
    } else {
        digit_chars(decimal_digits(n))
    }
}

pub fn digit_to_char(d: u8) -> (c: char)
    requires
        d < 10,
    ensures
        c == digit_char(d),
{
    match d {
        0 => '0',
        1 => '1',
        2 => '2',
        3 => '3',
        4 => '4',
        5 => '5',
        6 => '6',
        7 => '7',
        8 => '8',
        _ => '9',
    }
}

pub proof fn lemma_decimal_digits_small(n: nat)
    ensures
        forall|i: int| 0 <= i < decimal_digits(n).len() ==> #[trigger] decimal_digits(n)[i] < 10,
    decreases n,
{
    if n > 0 {
        lemma_decimal_digits_small(n / 10);
        let d = decimal_digits(n / 10);
        assert(decimal_digits(n) == d.push((n % 10) as u8));
        assert forall|i: int| 0 <= i < decimal_digits(n).len() implies #[trigger] decimal_digits(
            n,
        )[i] < 10 by {
            if i < d.len() {
                assert(decimal_digits(n)[i] == d[i]);
            }
        }
    }
}

/// The decimal digits of `n`.
pub fn digits_of_u64(n: u64) -> (r: Vec<u8>)
    ensures
        r@ == decimal_digits(n as nat),
    decreases n,
{
    if n == 0 {
        Vec::new()
    } else {
        let mut r = digits_of_u64(n / 10);
        r.push((n % 10) as u8);
        r
    }
}

/// Appends the decimal text of `n` to `out`.
pub fn push_decimal(out: &mut String, n: u64)
    ensures
        final(out)@ == old(out)@ + nat_text(n as nat),
{
    if n == 0 {
        push_char(out, '0');
        return;
    }
    let ds = digits_of_u64(n);
    proof {
        lemma_decimal_digits_small(n as nat);
    }
    let mut i: usize = 0;
    let ghost start = out@;
    while i < ds.len()
        invariant
            i <= ds@.len(),
            ds@ == decimal_digits(n as nat),
            forall|k: int| 0 <= k < ds@.len() ==> #[trigger] ds@[k] < 10,
            out@ == start + digit_chars(ds@.take(i as int)),
        decreases ds@.len() - i,
    {
        let c = digit_to_char(ds[i]);
        push_char(out, c);
        assert(digit_chars(ds@.take(i + 1)) =~= digit_chars(ds@.take(i as int)).push(c));
        i += 1;
    }
    assert(ds@.take(ds@.len() as int) == ds@);
}

/// The decimal text of a count.
pub fn usize_text(n: usize) -> (r: String)
    ensures
        r@ == nat_text(n as nat),
{
    let mut s = String::new();
    push_decimal(&mut s, n as u64);
    s
}

/// The pieces of `s` between occurrences of `c` (`str::split` with a
/// character): empty pieces included, at least one piece.
pub open spec fn split_char(s: Seq<char>, c: char) -> Seq<Seq<char>>
    decreases s.len(),
{
    match find_char_from(s, c, 0) {
        Some(k) => if 0 <= k < s.len() {
            seq![s.take(k)] + split_char(s.skip(k + 1), c)
        } else {
            seq![s]
        },
        None => seq![s],
    }
}

/// The pieces of `s` between occurrences of `c` (`split_char`).
pub fn split_on(s: &str, c: char) -> (r: Vec<String>)
    ensures
        r@.map_values(|x: String| x@) == split_char(s@, c),
{
    let cs = chars_of(s);
    let n = cs.len();
    let mut r: Vec<String> = Vec::new();
    let mut start: usize = 0;
    assert(cs@.skip(0) =~= cs@);
    loop
        invariant
            start <= n == cs@.len(),
            cs@ == s@,
            split_char(s@, c) == r@.map_values(|x: String| x@) + split_char(cs@.skip(start as int), c),
        decreases n - start,
    {
        let ghost rest = cs@.skip(start as int);
        let found = find_char(cs.as_slice(), c, start);
        proof {
            lemma_find_char_from(cs@, c, start as int);
            lemma_find_char_from(rest, c, 0);
            lemma_find_char_shift(cs@, c, start as int);
        }
        let ghost before = r@;
        match found {
            Some(k) => {
                let piece = string_of_range(cs.as_slice(), start, k);
                r.push(piece);
                proof {
                    assert(piece@ =~= rest.take(k - start));
                    assert(rest.skip(k - start + 1) =~= cs@.skip(k + 1));
                    assert(r@.map_values(|x: String| x@) =~= before.map_values(|x: String| x@).push(
                        piece@,
                    ));
                }
                start = k + 1;
            },
            None => {
                let piece = string_of_range(cs.as_slice(), start, n);
                r.push(piece);
                proof {
                    assert(piece@ =~= rest);
                    assert(r@.map_values(|x: String| x@) =~= before.map_values(|x: String| x@).push(
                        piece@,
                    ));
                    assert(split_char(s@, c) =~= r@.map_values(|x: String| x@));
                }
                return r;
            },
        }
    }
}

/// The characters of `s` with every `from` replaced by `to`.
pub open spec fn replace_char_of(s: Seq<char>, from: char, to: char) -> Seq<char> {
    s.map_values(|c: char| if c == from { to } else { c })
}

pub fn replace_char(s: &str, from: char, to: char) -> (r: String)
    ensures
        r@ == replace_char_of(s@, from, to),
{
    let cs = chars_of(s);
    let mut out: Vec<char> = Vec::new();
    let mut i: usize = 0;
    while i < cs.len()
        invariant
            i <= cs@.len(),
            out@ == replace_char_of(cs@.take(i as int), from, to),
        decreases cs@.len() - i,
    {
        let c = cs[i];
        out.push(if c == from { to } else { c });
        assert(replace_char_of(cs@.take(i + 1), from, to) =~= replace_char_of(
            cs@.take(i as int),
            from,
            to,
        ).push(if c == from { to } else { c }));
        i += 1;
    }
    assert(cs@.take(cs@.len() as int) == cs@);
    string_of(out.as_slice())
}

/// The texts joined with a separator.
pub open spec fn join_texts(s: Seq<Seq<char>>, sep: Seq<char>) -> Seq<char>
    decreases s.len(),
{
    if s.len() == 0 {
        Seq::empty()
    } else if s.len() == 1 {
        s[0]
    } else {
        join_texts(s.drop_last(), sep) + sep + s.last()
    }
}

/// The strings joined with a separator (`join_texts`).
pub fn join_strings(v: &Vec<String>, sep: &str) -> (r: String)
    ensures
        r@ == join_texts(v@.map_values(|s: String| s@), sep@),
{
    let ghost sv = v@.map_values(|s: String| s@);
    let mut out = String::new();
    let mut j: usize = 0;
    while j < v.len()
        invariant
            j <= v@.len(),
            sv == v@.map_values(|s: String| s@),
            out@ == join_texts(sv.take(j as int), sep@),
        decreases v@.len() - j,
    {
        assert(sv.take(j + 1).drop_last() =~= sv.take(j as int));
        assert(sv.take(j + 1).last() == v@[j as int]@);
        if j > 0 {
            push_str(&mut out, sep);
        }
        push_str(&mut out, v[j].as_str());
        proof {
            if j == 0 {
                assert(sv.take(1) =~= seq![sv[0]]);
            }
            assert(out@ =~= join_texts(sv.take(j + 1), sep@));
        }
        j += 1;
    }
    assert(sv.take(j as int) =~= sv);
    out
}

} // verus!
