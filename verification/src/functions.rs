//! The functions of the expression language: `contains`, `startsWith`,
//! `endsWith`, `format`, `join`, `toJSON`, `fromJSON` and `hashFiles`.
use crate::error::{Error, SpecError};
use crate::paths::{absolute, components, components_of, is_absolute, texts};
use crate::text::{chars_of, contains_chars, contains_seq, find_char, find_char_from, has_prefix, has_suffix, lemma_find_char_from, lowercase_of, nat_text, push_char, push_decimal, push_str, starts_with_chars, ends_with_chars, str_eq, string_of_range, to_lowercase};
use crate::value::{SpecValue, Value, json_pretty, str_lt, to_json_pretty, value_text};
use crate::json::{json_value, read_json};
use sha2::Digest;
use vstd::prelude::*;

verus! {

/// The files that the patterns of a `hashFiles` call matched, each with its
/// content, in the order found.
pub struct FileSet {
    pub patterns: Vec<String>,
    pub files: Vec<(String, Vec<u8>)>,
}

/// The mathematical form of a file set: patterns, and paths with contents.
pub open spec fn file_set_view(f: FileSet) -> (Seq<Seq<char>>, Seq<(Seq<char>, Seq<u8>)>) {
    (texts(f.patterns@), f.files@.map_values(|x: (String, Vec<u8>)| (x.0@, x.1@)))
}

/// The file sets known so far.
pub open spec fn file_sets_view(v: Seq<FileSet>) -> Seq<(Seq<Seq<char>>, Seq<(Seq<char>, Seq<u8>)>)> {
    v.map_values(|f: FileSet| file_set_view(f))
}

/// Why an evaluation stopped: it failed, or it needs the files that some
/// patterns match (with their contents) before it can go on.
pub enum EvalError {
    Failed(Error),
    NeedFiles(Vec<String>),
}

/// The mathematical form of `EvalError`.
pub ghost enum SpecStop {
    Failed(SpecError),
    NeedFiles(Seq<Seq<char>>),
}

impl View for EvalError {
    type V = SpecStop;

    open spec fn view(&self) -> SpecStop {
        match self {
            EvalError::Failed(e) => SpecStop::Failed(e@),
            EvalError::NeedFiles(p) => SpecStop::NeedFiles(texts(p@)),
        }
    }
}

/// A failure with an evaluation message.
pub open spec fn eval_failure(m: Seq<char>) -> SpecStop {
    SpecStop::Failed(SpecError::ExpressionEval(m))
}

/// The result of a function.
pub type CallResult = Result<SpecValue, SpecStop>;

/// The message of a call with the wrong number of arguments.
pub open spec fn arity_text(name: Seq<char>, min: nat, max: nat, got: nat) -> Seq<char> {
    name + "() expects "@ + nat_text(min) + "-"@ + nat_text(max) + " arguments, got "@ + nat_text(
        got,
    )
}

fn arity_error(name: &str, min: usize, max: usize, got: usize) -> (e: EvalError)
    ensures
        e@ == eval_failure(arity_text(name@, min as nat, max as nat, got as nat)),
{
    let mut m = String::from_str(name);
    push_str(&mut m, "() expects ");
    push_decimal(&mut m, min as u64);
    push_str(&mut m, "-");
    push_decimal(&mut m, max as u64);
    push_str(&mut m, " arguments, got ");
    push_decimal(&mut m, got as u64);
    assert(m@ =~= arity_text(name@, min as nat, max as nat, got as nat));
    EvalError::Failed(Error::ExpressionEval(m))
}

/// The views of a list of values.
pub open spec fn values_view(v: Seq<Value>) -> Seq<SpecValue> {
    v.map_values(|x: Value| x@)
}

/// Whether two values have the same text, ignoring case.
pub open spec fn same_text(a: SpecValue, b: SpecValue) -> bool {
    lowercase_of(value_text(a)) == lowercase_of(value_text(b))
}

/// Whether an element of `items` has the same text as `b`, ignoring case.
pub open spec fn array_holds(items: Seq<SpecValue>, b: SpecValue) -> bool {
    exists|i: int| 0 <= i < items.len() && #[trigger] same_text(items[i], b)
}

/// `contains(search, item)`: for a string, whether it holds the item's text
/// ignoring case; for an array, whether an element's text equals the
/// item's ignoring case; otherwise as for the texts of both.
pub open spec fn contains_spec(a: SpecValue, b: SpecValue) -> bool {
    if a is Array {
        array_holds(a->Array_0, b)
    } else {
        contains_seq(lowercase_of(value_text(a)), lowercase_of(value_text(b)))
    }
}

proof fn lemma_contains_item(items: Seq<SpecValue>, b: SpecValue, i: int)
    requires
        0 <= i < items.len(),
        same_text(items[i], b),
    ensures
        contains_spec(SpecValue::Array(items), b),
{
    assert(same_text(items[i], b));
    assert(exists|j: int| 0 <= j < items.len() && #[trigger] same_text(items[j], b));
    assert(contains_spec(SpecValue::Array(items), b) == (exists|j: int|
        0 <= j < items.len() && #[trigger] same_text(items[j], b)));
}

fn lower_text(v: &Value) -> (s: Vec<char>)
    ensures
        s@ == lowercase_of(value_text(v@)),
{
    let t = v.to_str();
    let l = to_lowercase(t.as_str());
    chars_of(l.as_str())
}

fn fn_contains(a: &Value, b: &Value) -> (r: bool)
    ensures
        r == contains_spec(a@, b@),
{
    let needle = lower_text(b);
    match a {
        Value::Array(items) => {
            proof {
                crate::value::lemma_array_view(*items);
            }
            let mut i: usize = 0;
            while i < items.len()
                invariant
                    i <= items@.len(),
                    needle@ == lowercase_of(value_text(b@)),
                    a@ == SpecValue::Array(values_view(items@)),
                    forall|j: int|
                        0 <= j < i ==> lowercase_of(value_text(items@[j]@)) != needle@,
                decreases items@.len() - i,
            {
                let x = lower_text(&items[i]);
                if crate::text::chars_eq(x.as_slice(), needle.as_slice()) {
                    assert(values_view(items@)[i as int] == items@[i as int]@);
                    assert(same_text(values_view(items@)[i as int], b@));
                    proof {
                        lemma_contains_item(values_view(items@), b@, i as int);
                    }
                    return true;
                }
                i += 1;
            }
            proof {
                assert forall|j: int| 0 <= j < values_view(items@).len() implies !same_text(
                    #[trigger] values_view(items@)[j],
                    b@,
                ) by {
                    assert(values_view(items@)[j] == items@[j]@);
                }
            }
            false
        },
        _ => {
            let h = lower_text(a);
            contains_chars(h.as_slice(), needle.as_slice())
        },
    }
}

/// The value of a `usize` written in decimal, with an optional `+`
/// (`str::parse::<usize>`).
pub open spec fn parse_usize(s: Seq<char>) -> Option<nat> {
    let digits = if s.len() > 0 && s[0] == '+' {
        s.drop_first()
    } else {
        s
    };
    if digits.len() > 0 && crate::number::all_digits(digits) && crate::number::decimal_value(
        digits,
    ) <= usize::MAX {
        Some(crate::number::decimal_value(digits))
    } else {
        None
    }
}

/// Parses a `usize` (`parse_usize`).
pub fn parse_usize_text(cs: &[char]) -> (r: Option<usize>)
    ensures
        match parse_usize(cs@) {
            Some(v) => r == Some(v as usize),
            None => r is None,
        },
{
    let n = cs.len();
    let start: usize = if n > 0 && cs[0] == '+' {
        1
    } else {
        0
    };
    let ghost digits = if cs@.len() > 0 && cs@[0] == '+' {
        cs@.drop_first()
    } else {
        cs@
    };
    assert(cs@.subrange(start as int, n as int) =~= digits);
    if start >= n {
        return None;
    }
    let mut v: usize = 0;
    let mut i = start;
    while i < n
        invariant
            start <= i <= n == cs@.len(),
            digits == cs@.subrange(start as int, n as int),
            digits == (if cs@.len() > 0 && cs@[0] == '+' {
                cs@.drop_first()
            } else {
                cs@
            }),
            digits.len() > 0,
            crate::number::all_digits(cs@.subrange(start as int, i as int)),
            v as nat == crate::number::decimal_value(cs@.subrange(start as int, i as int)),
        decreases n - i,
    {
        let c = cs[i];
        if !crate::text::is_ascii_digit(c) {
            proof {
                assert(digits[i - start] == c);
            }
            return None;
        }
        let d = (c as u32 - '0' as u32) as usize;
        let ghost prefix = cs@.subrange(start as int, i as int);
        let ghost next = cs@.subrange(start as int, i + 1);
        assert(next.drop_last() =~= prefix);
        assert(crate::number::decimal_value(next) == crate::number::decimal_value(prefix) * 10 + d);
        if v > (usize::MAX - d) / 10 {
            proof {
                assert(v * 10 + d > usize::MAX) by (nonlinear_arith)
                    requires
                        v > (usize::MAX - d) / 10,
                        d < 10,
                ;
                crate::number::lemma_decimal_value_grows(digits, i + 1 - start);
                assert(digits.take(i + 1 - start) =~= next);
            }
            return None;
        }
        assert(v * 10 + d <= usize::MAX) by (nonlinear_arith)
            requires
                v <= (usize::MAX - d) / 10,
                d < 10,
        ;
        v = v * 10 + d;
        proof {
            assert forall|j: int| 0 <= j < next.len() implies crate::text::ascii_digit(
                #[trigger] next[j],
            ) by {
                if j < prefix.len() {
                    assert(next[j] == prefix[j]);
                }
            }
        }
        i += 1;
    }
    assert(cs@.subrange(start as int, i as int) =~= digits);
    Some(v)
}

/// `format(fmt, args...)` from position `i` of the format: `{k}` becomes
/// the `k`-th replacement (nothing when there is none or `k` is not a
/// count), `{{` and `}}` become `{` and `}`, a `{` without a later `}`
/// stays.
pub open spec fn format_from(f: Seq<char>, reps: Seq<Seq<char>>, i: int) -> Seq<char>
    decreases f.len() - i,
{
    if i < 0 || i >= f.len() {
        Seq::empty()
    } else if f[i] == '{' {
        if i + 1 < f.len() && f[i + 1] == '{' {
            seq!['{'] + format_from(f, reps, i + 2)
        } else {
            match find_char_from(f, '}', i + 1) {
                Some(close) => if i < close < f.len() {
                    (match parse_usize(f.subrange(i + 1, close)) {
                        Some(k) => if k < reps.len() {
                            reps[k as int]
                        } else {
                            Seq::empty()
                        },
                        None => Seq::empty(),
                    }) + format_from(f, reps, close + 1)
                } else {
                    Seq::empty()
                },
                None => seq!['{'] + format_from(f, reps, i + 1),
            }
        }
    } else if f[i] == '}' && i + 1 < f.len() && f[i + 1] == '}' {
        seq!['}'] + format_from(f, reps, i + 2)
    } else {
        seq![f[i]] + format_from(f, reps, i + 1)
    }
}

/// The texts of the values after the first.
pub open spec fn rest_texts(args: Seq<SpecValue>) -> Seq<Seq<char>> {
    args.drop_first().map_values(|v: SpecValue| value_text(v))
}

/// Appends what the `{` at `i` (not doubled) stands for, returning where
/// the format goes on.
fn format_placeholder(
    f: &Vec<char>,
    reps: &Vec<String>,
    i: usize,
    out: &mut String,
    Ghost(rs): Ghost<Seq<Seq<char>>>,
) -> (next: usize)
    requires
        i < f@.len(),
        f@[i as int] == '{',
        !(i + 1 < f@.len() && f@[i + 1] == '{'),
        texts(reps@) == rs,
    ensures
        i < next <= f@.len(),
        final(out)@ + format_from(f@, rs, next as int) == old(out)@ + format_from(f@, rs, i as int),
{
    let n = f.len();
    let ghost before = out@;
    match find_char(f.as_slice(), '}', i + 1) {
        Some(close) => {
            proof {
                lemma_find_char_from(f@, '}', i + 1);
            }
            let idx = string_of_range(f.as_slice(), i + 1, close);
            let ic = chars_of(idx.as_str());
            let ghost piece = Seq::<char>::empty();
            match parse_usize_text(ic.as_slice()) {
                Some(k) => {
                    if k < reps.len() {
                        push_str(out, reps[k].as_str());
                        assert(texts(reps@)[k as int] == reps@[k as int]@);
                    }
                },
                None => {},
            }
            assert(before + format_from(f@, rs, i as int) =~= out@ + format_from(
                f@,
                rs,
                close + 1,
            ));
            close + 1
        },
        None => {
            push_char(out, '{');
            assert(before + format_from(f@, rs, i as int) =~= out@ + format_from(f@, rs, i + 1));
            i + 1
        },
    }
}

fn fn_format(args: &Vec<Value>) -> (r: String)
    requires
        args@.len() > 0,
    ensures
        r@ == format_from(value_text(args@[0]@), rest_texts(values_view(args@)), 0),
{
    let fmt = args[0].to_str();
    let f = chars_of(fmt.as_str());
    let n = f.len();
    let mut reps: Vec<String> = Vec::new();
    let mut k: usize = 1;
    while k < args.len()
        invariant
            1 <= k <= args@.len(),
            texts(reps@) == rest_texts(values_view(args@)).take(k - 1),
        decreases args@.len() - k,
    {
        let ghost before = reps@;
        reps.push(args[k].to_str());
        proof {
            assert(texts(reps@) =~= texts(before).push(value_text(args@[k as int]@)));
            assert(rest_texts(values_view(args@))[k - 1] == value_text(args@[k as int]@));
            assert(rest_texts(values_view(args@)).take(k as int) =~= rest_texts(
                values_view(args@),
            ).take(k - 1).push(value_text(args@[k as int]@)));
        }
        k += 1;
    }
    assert(rest_texts(values_view(args@)).take(k - 1) =~= rest_texts(values_view(args@)));
    let ghost rs = rest_texts(values_view(args@));
    let mut out = String::new();
    let mut i: usize = 0;
    while i < n
        invariant
            i <= n == f@.len(),
            f@ == value_text(args@[0]@),
            texts(reps@) == rs,
            format_from(f@, rs, 0) == out@ + format_from(f@, rs, i as int),
        decreases n - i,
    {
        let ghost before = out@;
        let ghost oi = i as int;
        if f[i] == '{' {
            if i + 1 < n && f[i + 1] == '{' {
                push_char(&mut out, '{');
                i += 2;
            } else {
                i = format_placeholder(&f, &reps, i, &mut out, Ghost(rs));
            }
        } else if f[i] == '}' && i + 1 < n && f[i + 1] == '}' {
            push_char(&mut out, '}');
            i += 2;
        } else {
            push_char(&mut out, f[i]);
            i += 1;
        }
        assert(before + format_from(f@, rs, oi) =~= out@ + format_from(f@, rs, i as int));
    }
    assert(format_from(f@, rs, i as int) =~= Seq::<char>::empty());
    assert(out@ + Seq::<char>::empty() =~= out@);
    out
}


/// The texts of a list of values joined with a separator.
pub open spec fn joined_texts(items: Seq<SpecValue>, sep: Seq<char>) -> Seq<char>
    decreases items.len(),
{
    if items.len() == 0 {
        Seq::empty()
    } else if items.len() == 1 {
        value_text(items[0])
    } else {
        joined_texts(items.drop_last(), sep) + sep + value_text(items.last())
    }
}

/// `join(array, separator)`: the texts of the elements joined with the
/// separator (`,` by default); a value that is not an array gives its text.
pub open spec fn join_spec(args: Seq<SpecValue>) -> Seq<char> {
    let sep = if args.len() > 1 {
        value_text(args[1])
    } else {
        ","@
    };
    if args[0] is Array {
        joined_texts(args[0]->Array_0, sep)
    } else {
        value_text(args[0])
    }
}

fn fn_join(args: &Vec<Value>) -> (r: String)
    requires
        1 <= args@.len() <= 2,
    ensures
        r@ == join_spec(values_view(args@)),
{
    let sep = if args.len() > 1 {
        args[1].to_str()
    } else {
        String::from_str(",")
    };
    assert(values_view(args@)[0] == args@[0]@);
    if args.len() > 1 {
        assert(values_view(args@)[1] == args@[1]@);
    }
    match &args[0] {
        Value::Array(items) => {
            proof {
                crate::value::lemma_array_view(*items);
            }
            let mut out = String::new();
            let mut i: usize = 0;
            while i < items.len()
                invariant
                    i <= items@.len(),
                    out@ == joined_texts(values_view(items@).take(i as int), sep@),
                decreases items@.len() - i,
            {
                let t = items[i].to_str();
                if i > 0 {
                    push_str(&mut out, sep.as_str());
                }
                push_str(&mut out, t.as_str());
                proof {
                    let s = values_view(items@).take(i + 1);
                    assert(s.drop_last() =~= values_view(items@).take(i as int));
                    assert(s.last() == items@[i as int]@);
                    if i == 0 {
                        assert(out@ =~= value_text(s[0]));
                    }
                }
                i += 1;
            }
            assert(values_view(items@).take(i as int) =~= values_view(items@));
            out
        },
        other => other.to_str(),
    }
}

/// What SHA-256 (`sha2::Sha256`) gives for a byte string.
pub uninterp spec fn sha256_digest(data: Seq<u8>) -> Seq<u8>;

/// Hashes bytes with `sha2::Sha256::digest`; the digest is named by
/// `sha256_digest` and, as the algorithm fixes, is 32 bytes long.
#[verifier::external_body]
fn sha256(data: &[u8]) -> (r: Vec<u8>)
    ensures
        r@ == sha256_digest(data@),
        r@.len() == 32,
{
    <sha2::Sha256 as Digest>::digest(data).to_vec()
}

/// The lower-case hexadecimal digit of a value below 16.
pub open spec fn hex_digit(d: int) -> char {
    if d < 10 {
        (('0' as int) + d) as char
    } else {
        (('a' as int) + d - 10) as char
    }
}

/// Bytes as lower-case hexadecimal, two digits each.
pub open spec fn hex_text(bs: Seq<u8>) -> Seq<char>
    decreases bs.len(),
{
    if bs.len() == 0 {
        Seq::empty()
    } else {
        hex_text(bs.drop_last()) + seq![hex_digit(bs.last() as int / 16), hex_digit(bs.last() as int % 16)]
    }
}

fn hex_char(d: u8) -> (c: char)
    requires
        d < 16,
    ensures
        c == hex_digit(d as int),
{
    if d < 10 {
        (('0' as u8) + d) as char
    } else {
        (('a' as u8) + d - 10) as char
    }
}

/// Bytes as lower-case hexadecimal (`hex_text`).
pub fn to_hex(bs: &[u8]) -> (s: String)
    ensures
        s@ == hex_text(bs@),
{
    let mut s = String::new();
    let mut i: usize = 0;
    while i < bs.len()
        invariant
            i <= bs@.len(),
            s@ == hex_text(bs@.take(i as int)),
        decreases bs@.len() - i,
    {
        let b = bs[i];
        push_char(&mut s, hex_char(b / 16));
        push_char(&mut s, hex_char(b % 16));
        assert(bs@.take(i + 1).drop_last() =~= bs@.take(i as int));
        i += 1;
    }
    assert(bs@.take(i as int) =~= bs@);
    s
}

/// Component texts in lexicographic order, each compared by code point:
/// the order `Path` sorts paths in (for paths of the same kind).
pub open spec fn components_lt(a: Seq<Seq<char>>, b: Seq<Seq<char>>) -> bool
    decreases a.len(),
{
    if a.len() == 0 {
        b.len() > 0
    } else if b.len() == 0 {
        false
    } else if a[0] == b[0] {
        components_lt(a.drop_first(), b.drop_first())
    } else {
        str_lt(a[0], b[0])
    }
}

/// Whether path `a` sorts before path `b`.
pub open spec fn path_lt(a: Seq<char>, b: Seq<char>) -> bool {
    components_lt(components_of(a), components_of(b))
}

/// A file (path and content) inserted into a list sorted by path, after
/// the files whose paths do not sort after its own.
pub open spec fn insert_file(s: Seq<(Seq<char>, Seq<u8>)>, x: (Seq<char>, Seq<u8>)) -> Seq<
    (Seq<char>, Seq<u8>),
>
    decreases s.len(),
{
    if s.len() == 0 {
        seq![x]
    } else if path_lt(x.0, s[0].0) {
        seq![x] + s
    } else {
        seq![s[0]] + insert_file(s.drop_first(), x)
    }
}

/// The files sorted by path, stably (files with equal paths keep their
/// order): what a stable sort of the paths gives.
pub open spec fn sort_files(s: Seq<(Seq<char>, Seq<u8>)>) -> Seq<(Seq<char>, Seq<u8>)>
    decreases s.len(),
{
    if s.len() == 0 {
        Seq::empty()
    } else {
        insert_file(sort_files(s.drop_last()), s.last())
    }
}

/// The contents of files, one after the other.
pub open spec fn all_contents(s: Seq<(Seq<char>, Seq<u8>)>) -> Seq<u8>
    decreases s.len(),
{
    if s.len() == 0 {
        Seq::empty()
    } else {
        all_contents(s.drop_last()) + s.last().1
    }
}

/// `hashFiles` once the files are known: empty when no file matched,
/// otherwise the hexadecimal SHA-256 of the contents of the files in path
/// order.
pub open spec fn hash_files_text(files: Seq<(Seq<char>, Seq<u8>)>) -> Seq<char> {
    if files.len() == 0 {
        Seq::empty()
    } else {
        hex_text(sha256_digest(all_contents(sort_files(files))))
    }
}

pub(crate) fn strings_lt(a: &Vec<String>, b: &Vec<String>) -> (r: bool)
    ensures
        r == components_lt(texts(a@), texts(b@)),
{
    let mut i: usize = 0;
    assert(texts(a@).skip(0) =~= texts(a@));
    assert(texts(b@).skip(0) =~= texts(b@));
    while i < a.len() && i < b.len()
        invariant
            i <= a@.len(),
            i <= b@.len(),
            components_lt(texts(a@), texts(b@)) == components_lt(
                texts(a@).skip(i as int),
                texts(b@).skip(i as int),
            ),
        decreases a@.len() - i,
    {
        let x = &a[i];
        let y = &b[i];
        assert(texts(a@).skip(i as int)[0] == x@);
        assert(texts(b@).skip(i as int)[0] == y@);
        if !str_eq(x.as_str(), y.as_str()) {
            return crate::value::string_less(x, y);
        }
        assert(texts(a@).skip(i as int).drop_first() =~= texts(a@).skip(i + 1));
        assert(texts(b@).skip(i as int).drop_first() =~= texts(b@).skip(i + 1));
        i += 1;
    }
    i < b.len()
}

/// The view of a list of files.
pub open spec fn files_view(v: Seq<(String, Vec<u8>)>) -> Seq<(Seq<char>, Seq<u8>)> {
    v.map_values(|x: (String, Vec<u8>)| (x.0@, x.1@))
}

fn copy_bytes(b: &Vec<u8>) -> (r: Vec<u8>)
    ensures
        r@ == b@,
{
    let mut r: Vec<u8> = Vec::new();
    let mut i: usize = 0;
    while i < b.len()
        invariant
            i <= b@.len(),
            r@ == b@.take(i as int),
        decreases b@.len() - i,
    {
        r.push(b[i]);
        assert(b@.take(i + 1) =~= b@.take(i as int).push(b@[i as int]));
        i += 1;
    }
    assert(b@.take(i as int) =~= b@);
    r
}

/// `hashFiles` once the files are known (`hash_files_text`).
pub fn hash_files(files: &Vec<(String, Vec<u8>)>) -> (s: String)
    ensures
        s@ == hash_files_text(files_view(files@)),
{
    if files.len() == 0 {
        return String::new();
    }
    let ghost fv = files_view(files@);
    let mut sorted: Vec<(String, Vec<u8>)> = Vec::new();
    let mut keys: Vec<Vec<String>> = Vec::new();
    let mut i: usize = 0;
    while i < files.len()
        invariant
            i <= files@.len(),
            fv == files_view(files@),
            keys@.len() == sorted@.len(),
            forall|j: int| 0 <= j < keys@.len() ==> texts(#[trigger] keys@[j]@) == components_of(sorted@[j].0@),
            files_view(sorted@) == sort_files(fv.take(i as int)),
        decreases files@.len() - i,
    {
        let path = files[i].0.clone();
        let content = copy_bytes(&files[i].1);
        let k = components(path.as_str());
        let ghost x = (path@, content@);
        assert(fv[i as int] == x);
        assert(fv.take(i + 1).drop_last() =~= fv.take(i as int));
        let ghost before = files_view(sorted@);
        let mut pos: usize = 0;
        assert(before.skip(0) =~= before);
        assert(before.take(0) =~= Seq::<(Seq<char>, Seq<u8>)>::empty());
        assert(insert_file(before, x) =~= before.take(0) + insert_file(before.skip(0), x));
        while pos < sorted.len() && !strings_lt(&k, &keys[pos])
            invariant
                pos <= sorted@.len() == keys@.len(),
                forall|j: int| 0 <= j < keys@.len() ==> texts(#[trigger] keys@[j]@) == components_of(sorted@[j].0@),
                texts(k@) == components_of(path@),
                x.0 == path@,
                before == files_view(sorted@),
                insert_file(before, x) == before.take(pos as int) + insert_file(before.skip(pos as int), x),
            decreases sorted@.len() - pos,
        {
            proof {
                assert(before.skip(pos as int)[0] == before[pos as int]);
                assert(before[pos as int].0 == sorted@[pos as int].0@);
                assert(texts(keys@[pos as int]@) == components_of(sorted@[pos as int].0@));
                assert(!path_lt(x.0, before[pos as int].0));
                assert(before.skip(pos as int).drop_first() =~= before.skip(pos + 1));
                assert(before.take(pos + 1) =~= before.take(pos as int).push(before[pos as int]));
                assert(before.take(pos as int) + insert_file(before.skip(pos as int), x) =~= before.take(
                    pos + 1,
                ) + insert_file(before.skip(pos + 1), x));
            }
            pos += 1;
        }
        proof {
            if pos < sorted@.len() {
                assert(before.skip(pos as int)[0] == before[pos as int]);
                assert(before[pos as int].0 == sorted@[pos as int].0@);
                assert(path_lt(x.0, before.skip(pos as int)[0].0));
            } else {
                assert(before.skip(pos as int) =~= Seq::<(Seq<char>, Seq<u8>)>::empty());
            }
        }
        sorted.insert(pos, (path, content));
        keys.insert(pos, k);
        proof {
            assert(files_view(sorted@) =~= before.take(pos as int) + insert_file(before.skip(pos as int), x));
            assert forall|j: int| 0 <= j < keys@.len() implies texts(#[trigger] keys@[j]@) == components_of(
                sorted@[j].0@,
            ) by {
            }
        }
        i += 1;
    }
    assert(fv.take(i as int) =~= fv);
    let mut data: Vec<u8> = Vec::new();
    let mut j: usize = 0;
    while j < sorted.len()
        invariant
            j <= sorted@.len(),
            data@ == all_contents(files_view(sorted@).take(j as int)),
        decreases sorted@.len() - j,
    {
        let ghost before = data@;
        let mut q: usize = 0;
        let n = sorted[j].1.len();
        while q < n
            invariant
                j < sorted@.len(),
                q <= n == sorted@[j as int].1@.len(),
                data@ == before + sorted@[j as int].1@.take(q as int),
            decreases n - q,
        {
            data.push(sorted[j].1[q]);
            assert(sorted@[j as int].1@.take(q + 1) =~= sorted@[j as int].1@.take(q as int).push(
                sorted@[j as int].1@[q as int],
            ));
            q += 1;
        }
        assert(sorted@[j as int].1@.take(q as int) =~= sorted@[j as int].1@);
        assert(files_view(sorted@).take(j + 1).drop_last() =~= files_view(sorted@).take(j as int));
        j += 1;
    }
    assert(files_view(sorted@).take(j as int) =~= files_view(sorted@));
    let digest = sha256(data.as_slice());
    to_hex(digest.as_slice())
}

/// The pattern a `hashFiles` argument stands for: itself when absolute,
/// otherwise under the workspace.
pub open spec fn full_pattern(ws: Seq<char>, p: Seq<char>) -> Seq<char> {
    if absolute(p) {
        p
    } else {
        ws + "/"@ + p
    }
}

/// The patterns of a `hashFiles` call.
pub open spec fn full_patterns(ws: Seq<char>, args: Seq<SpecValue>) -> Seq<Seq<char>> {
    args.map_values(|v: SpecValue| full_pattern(ws, value_text(v)))
}

/// The files of the first known file set with these patterns.
pub open spec fn find_files(
    sets: Seq<(Seq<Seq<char>>, Seq<(Seq<char>, Seq<u8>)>)>,
    pats: Seq<Seq<char>>,
) -> Option<Seq<(Seq<char>, Seq<u8>)>>
    decreases sets.len(),
{
    if sets.len() == 0 {
        None
    } else if sets[0].0 == pats {
        Some(sets[0].1)
    } else {
        find_files(sets.drop_first(), pats)
    }
}

/// What a function call gives, given the workspace and the file sets known
/// so far.  Names are matched exactly, with an all-lower-case form accepted
/// for the case-insensitive functions; the status functions are not among
/// them (the evaluator answers those).
pub open spec fn call_spec(
    name: Seq<char>,
    args: Seq<SpecValue>,
    ws: Seq<char>,
    sets: Seq<(Seq<Seq<char>>, Seq<(Seq<char>, Seq<u8>)>)>,
) -> CallResult {
    if name == "contains"@ {
        if args.len() != 2 {
            Err(eval_failure(arity_text("contains"@, 2, 2, args.len())))
        } else {
            Ok(SpecValue::Bool(contains_spec(args[0], args[1])))
        }
    } else if name == "startsWith"@ || name == "startswith"@ {
        if args.len() != 2 {
            Err(eval_failure(arity_text("startsWith"@, 2, 2, args.len())))
        } else {
            Ok(SpecValue::Bool(has_prefix(lowercase_of(value_text(args[0])), lowercase_of(value_text(args[1])))))
        }
    } else if name == "endsWith"@ || name == "endswith"@ {
        if args.len() != 2 {
            Err(eval_failure(arity_text("endsWith"@, 2, 2, args.len())))
        } else {
            Ok(SpecValue::Bool(has_suffix(lowercase_of(value_text(args[0])), lowercase_of(value_text(args[1])))))
        }
    } else if name == "format"@ {
        if args.len() == 0 {
            Err(eval_failure("format() requires at least 1 argument"@))
        } else {
            Ok(SpecValue::Str(format_from(value_text(args[0]), rest_texts(args), 0)))
        }
    } else if name == "join"@ {
        if args.len() < 1 || args.len() > 2 {
            Err(eval_failure(arity_text("join"@, 1, 2, args.len())))
        } else {
            Ok(SpecValue::Str(join_spec(args)))
        }
    } else if name == "toJSON"@ || name == "tojson"@ {
        if args.len() != 1 {
            Err(eval_failure(arity_text("toJSON"@, 1, 1, args.len())))
        } else {
            Ok(SpecValue::Str(json_pretty(args[0], Seq::empty())))
        }
    } else if name == "fromJSON"@ || name == "fromjson"@ {
        if args.len() != 1 {
            Err(eval_failure(arity_text("fromJSON"@, 1, 1, args.len())))
        } else {
            match json_value(value_text(args[0])) {
                Ok(v) => Ok(v),
                Err(m) => Err(eval_failure("fromJSON failed: "@ + m)),
            }
        }
    } else if name == "hashFiles"@ || name == "hashfiles"@ {
        if args.len() == 0 {
            Err(eval_failure("hashFiles() requires at least 1 argument"@))
        } else {
            match find_files(sets, full_patterns(ws, args)) {
                Some(files) => Ok(SpecValue::Str(hash_files_text(files))),
                None => Err(SpecStop::NeedFiles(full_patterns(ws, args))),
            }
        }
    } else {
        Err(SpecStop::Failed(SpecError::UnknownFunction(name)))
    }
}

fn lower_chars(v: &Value) -> (s: Vec<char>)
    ensures
        s@ == lowercase_of(value_text(v@)),
{
    lower_text(v)
}

fn patterns_of(args: &Vec<Value>, workspace: &str) -> (r: Vec<String>)
    ensures
        texts(r@) == full_patterns(workspace@, values_view(args@)),
{
    let mut r: Vec<String> = Vec::new();
    let mut i: usize = 0;
    while i < args.len()
        invariant
            i <= args@.len(),
            texts(r@) == full_patterns(workspace@, values_view(args@)).take(i as int),
        decreases args@.len() - i,
    {
        let p = args[i].to_str();
        let full = if is_absolute(p.as_str()) {
            p
        } else {
            let mut s = String::from_str(workspace);
            push_str(&mut s, "/");
            push_str(&mut s, p.as_str());
            s
        };
        let ghost before = r@;
        r.push(full);
        proof {
            assert(values_view(args@)[i as int] == args@[i as int]@);
            assert(texts(r@) =~= texts(before).push(full_pattern(workspace@, value_text(args@[i as int]@))));
            assert(full_patterns(workspace@, values_view(args@)).take(i + 1) =~= full_patterns(
                workspace@,
                values_view(args@),
            ).take(i as int).push(full_pattern(workspace@, value_text(args@[i as int]@))));
        }
        i += 1;
    }
    assert(full_patterns(workspace@, values_view(args@)).take(i as int) =~= full_patterns(
        workspace@,
        values_view(args@),
    ));
    r
}

fn same_strings(a: &Vec<String>, b: &Vec<String>) -> (r: bool)
    ensures
        r == (texts(a@) == texts(b@)),
{
    if a.len() != b.len() {
        assert(texts(a@).len() != texts(b@).len());
        return false;
    }
    let mut i: usize = 0;
    while i < a.len()
        invariant
            i <= a@.len() == b@.len(),
            forall|j: int| 0 <= j < i ==> a@[j]@ == b@[j]@,
        decreases a@.len() - i,
    {
        if !str_eq(a[i].as_str(), b[i].as_str()) {
            assert(texts(a@)[i as int] != texts(b@)[i as int]);
            return false;
        }
        i += 1;
    }
    assert(texts(a@) =~= texts(b@));
    true
}

fn find_file_set<'a>(sets: &'a Vec<FileSet>, pats: &Vec<String>) -> (r: Option<&'a FileSet>)
    ensures
        match find_files(file_sets_view(sets@), texts(pats@)) {
            Some(files) => r matches Some(s) && file_set_view(*s).1 == files,
            None => r is None,
        },
{
    let ghost all = file_sets_view(sets@);
    let mut i: usize = 0;
    assert(all.skip(0) =~= all);
    while i < sets.len()
        invariant
            i <= sets@.len(),
            all == file_sets_view(sets@),
            find_files(all, texts(pats@)) == find_files(all.skip(i as int), texts(pats@)),
        decreases sets@.len() - i,
    {
        assert(all.skip(i as int)[0] == file_set_view(sets@[i as int]));
        if same_strings(&sets[i].patterns, pats) {
            return Some(&sets[i]);
        }
        assert(all.skip(i as int).drop_first() =~= all.skip(i + 1));
        i += 1;
    }
    None
}

/// Calls a function of the expression language (`call_spec`).
pub fn call_function(name: &str, args: &Vec<Value>, workspace: &str, sets: &Vec<FileSet>) -> (r:
    Result<Value, EvalError>)
    ensures
        match call_spec(name@, values_view(args@), workspace@, file_sets_view(sets@)) {
            Ok(v) => r matches Ok(x) && x@ == v,
            Err(s) => r matches Err(e) && e@ == s,
        },
{
    let n = args.len();
    if n > 0 {
        assert(values_view(args@)[0] == args@[0]@);
    }
    if n > 1 {
        assert(values_view(args@)[1] == args@[1]@);
    }
    if str_eq(name, "contains") {
        if n != 2 {
            return Err(arity_error("contains", 2, 2, n));
        }
        return Ok(Value::Bool(fn_contains(&args[0], &args[1])));
    }
    if str_eq(name, "startsWith") || str_eq(name, "startswith") {
        if n != 2 {
            return Err(arity_error("startsWith", 2, 2, n));
        }
        let a = lower_chars(&args[0]);
        let b = lower_chars(&args[1]);
        return Ok(Value::Bool(starts_with_chars(a.as_slice(), b.as_slice())));
    }
    if str_eq(name, "endsWith") || str_eq(name, "endswith") {
        if n != 2 {
            return Err(arity_error("endsWith", 2, 2, n));
        }
        let a = lower_chars(&args[0]);
        let b = lower_chars(&args[1]);
        return Ok(Value::Bool(ends_with_chars(a.as_slice(), b.as_slice())));
    }
    if str_eq(name, "format") {
        if n == 0 {
            return Err(
                EvalError::Failed(
                    Error::ExpressionEval(String::from_str("format() requires at least 1 argument")),
                ),
            );
        }
        return Ok(Value::String(fn_format(args)));
    }
    if str_eq(name, "join") {
        if n < 1 || n > 2 {
            return Err(arity_error("join", 1, 2, n));
        }
        return Ok(Value::String(fn_join(args)));
    }
    if str_eq(name, "toJSON") || str_eq(name, "tojson") {
        if n != 1 {
            return Err(arity_error("toJSON", 1, 1, n));
        }
        return Ok(Value::String(to_json_pretty(&args[0])));
    }
    if str_eq(name, "fromJSON") || str_eq(name, "fromjson") {
        if n != 1 {
            return Err(arity_error("fromJSON", 1, 1, n));
        }
        let s = args[0].to_str();
        return match read_json(s.as_str()) {
            Ok(v) => Ok(v),
            Err(m) => {
                let mut msg = String::from_str("fromJSON failed: ");
                push_str(&mut msg, m.as_str());
                Err(EvalError::Failed(Error::ExpressionEval(msg)))
            },
        };
    }
    if str_eq(name, "hashFiles") || str_eq(name, "hashfiles") {
        if n == 0 {
            return Err(
                EvalError::Failed(
                    Error::ExpressionEval(
                        String::from_str("hashFiles() requires at least 1 argument"),
                    ),
                ),
            );
        }
        let pats = patterns_of(args, workspace);
        return match find_file_set(sets, &pats) {
            Some(set) => Ok(Value::String(hash_files(&set.files))),
            None => Err(EvalError::NeedFiles(pats)),
        };
    }
    Err(EvalError::Failed(Error::UnknownFunction(String::from_str(name))))
}

/// `contains` on a string is a substring test that ignores case: it is
/// true exactly when the item's lower-case text stands somewhere inside the
/// string's lower-case text, whatever comes before and after it.
pub proof fn law_contains_is_substring(
    h: Seq<char>,
    item: SpecValue,
    ws: Seq<char>,
    sets: Seq<(Seq<Seq<char>>, Seq<(Seq<char>, Seq<u8>)>)>,
)
    ensures
        call_spec("contains"@, seq![SpecValue::Str(h), item], ws, sets) is Ok,
        call_spec("contains"@, seq![SpecValue::Str(h), item], ws, sets) == Ok::<SpecValue, SpecStop>(
            SpecValue::Bool(true),
        ) <==> exists|before: Seq<char>, after: Seq<char>|
            lowercase_of(h) == before + lowercase_of(value_text(item)) + after,
        forall|before: Seq<char>, after: Seq<char>|
            lowercase_of(h) == before + lowercase_of(value_text(item)) + after ==> call_spec(
                "contains"@,
                seq![SpecValue::Str(h), item],
                ws,
                sets,
            ) == Ok::<SpecValue, SpecStop>(SpecValue::Bool(true)),
{
    let lh = lowercase_of(h);
    let ln = lowercase_of(value_text(item));
    let args = seq![SpecValue::Str(h), item];
    assert(args.len() == 2);
    assert(value_text(SpecValue::Str(h)) == h);
    assert forall|before: Seq<char>, after: Seq<char>| lh == before + ln + after implies contains_seq(
        lh,
        ln,
    ) by {
        assert(lh.subrange(before.len() as int, (before.len() + ln.len()) as int) =~= ln);
        assert(crate::text::occurs_at(lh, ln, before.len() as int));
    }
    if contains_seq(lh, ln) {
        let i = choose|i: int| crate::text::occurs_at(lh, ln, i);
        let before = lh.take(i);
        let after = lh.skip(i + ln.len());
        assert(lh =~= before + ln + after);
    }
}

} // verus!
