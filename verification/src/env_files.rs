//! The files through which steps hand values back to the runner:
//! `GITHUB_OUTPUT` / `GITHUB_ENV` (`KEY=value` lines and `KEY<<DELIM`
//! heredocs), `GITHUB_PATH` (one path per line) and plain `KEY=VALUE` env
//! files with `#` comments.
use crate::strmap::StrMap;
use crate::text::{
    chars_of, find_char, find_char_from, find_chars, find_from, lines, lines_of, push_char,
    string_of, string_of_range, trim_chars, trim_end_chars, trim_end_of, trim_of,
    lemma_find_char_from,
};
use vstd::prelude::*;

verus! {

/// Lines joined with `\n` between them (`[&str]::join("\n")`).
pub open spec fn join_lines(s: Seq<Seq<char>>) -> Seq<char>
    decreases s.len(),
{
    if s.len() == 0 {
        Seq::empty()
    } else if s.len() == 1 {
        s[0]
    } else {
        join_lines(s.drop_last()) + seq!['\n'] + s.last()
    }
}

/// The index of the first line at or after `j` that, without trailing white
/// space, is `delim`; the number of lines if there is none.
pub open spec fn heredoc_end(ls: Seq<Seq<char>>, j: int, delim: Seq<char>) -> int
    decreases ls.len() - j,
{
    if j < 0 || j >= ls.len() {
        ls.len() as int
    } else if trim_end_of(ls[j]) == delim {
        j
    } else {
        heredoc_end(ls, j + 1, delim)
    }
}

/// A `KEY=value` line added to `m`: the key is what comes before the first
/// `=`, the value what follows it; a line without `=` adds nothing.
pub open spec fn with_assignment(m: Map<Seq<char>, Seq<char>>, line: Seq<char>) -> Map<
    Seq<char>,
    Seq<char>,
> {
    match find_char_from(line, '=', 0) {
        Some(eq) => m.insert(line.take(eq), line.skip(eq + 1)),
        None => m,
    }
}

/// The entries of a `GITHUB_OUTPUT` / `GITHUB_ENV` file whose lines are
/// `ls`, read from line `i` on, added to `m`.  A line (without trailing white
/// space) `KEY<<DELIM` with both parts non-empty starts a heredoc: the value
/// is the following lines joined with `\n`, up to the line that is `DELIM`
/// (or the end).  Otherwise a line is read as `KEY=value`; empty lines are
/// skipped.  A later entry for a key replaces an earlier one.
pub open spec fn github_file_from(ls: Seq<Seq<char>>, i: int, m: Map<Seq<char>, Seq<char>>) -> Map<
    Seq<char>,
    Seq<char>,
>
    decreases ls.len() - i,
{
    if i < 0 || i >= ls.len() {
        m
    } else {
        let line = trim_end_of(ls[i]);
        if line.len() == 0 {
            github_file_from(ls, i + 1, m)
        } else {
            match find_from(line, "<<"@, 0) {
                Some(pos) => {
                    let key = line.take(pos);
                    let delim = line.skip(pos + 2);
                    if key.len() == 0 || delim.len() == 0 {
                        github_file_from(ls, i + 1, with_assignment(m, line))
                    } else {
                        let end = heredoc_end(ls, i + 1, delim);
                        let next = m.insert(key, join_lines(ls.subrange(i + 1, end)));
                        if i < end < ls.len() {
                            github_file_from(ls, end + 1, next)
                        } else {
                            next
                        }
                    }
                },
                None => github_file_from(ls, i + 1, with_assignment(m, line)),
            }
        }
    }
}

/// The entries of a `GITHUB_OUTPUT` / `GITHUB_ENV` file with content `s`.
pub open spec fn github_file(s: Seq<char>) -> Map<Seq<char>, Seq<char>> {
    github_file_from(lines_of(s), 0, Map::empty())
}

proof fn lemma_heredoc_end(ls: Seq<Seq<char>>, j: int, delim: Seq<char>)
    requires
        0 <= j,
    ensures
        j <= heredoc_end(ls, j, delim) <= ls.len() || (j > ls.len() && heredoc_end(ls, j, delim)
            == ls.len()),
    decreases ls.len() - j,
{
    if j < ls.len() && trim_end_of(ls[j]) != delim {
        lemma_heredoc_end(ls, j + 1, delim);
    }
}

proof fn lemma_heredoc_end_at(ls: Seq<Seq<char>>, j: int, end: int, delim: Seq<char>)
    requires
        0 <= j <= end <= ls.len(),
        forall|k: int| j <= k < end ==> trim_end_of(#[trigger] ls[k]) != delim,
        end < ls.len() ==> trim_end_of(ls[end]) == delim,
    ensures
        heredoc_end(ls, j, delim) == end,
    decreases end - j,
{
    if j < end {
        lemma_heredoc_end_at(ls, j + 1, end, delim);
    }
}

proof fn lemma_heredoc_head(key: Seq<char>, delim: Seq<char>)
    requires
        key.len() > 0,
        !key.contains('<'),
    ensures
        find_from(key + "<<"@ + delim, "<<"@, 0) == Some(key.len() as int),
        (key + "<<"@ + delim).take(key.len() as int) == key,
        (key + "<<"@ + delim).skip(key.len() as int + 2) == delim,
{
    reveal_strlit("<<");
    let line = key + "<<"@ + delim;
    let n = key.len() as int;
    assert(line.subrange(n, n + 2) =~= "<<"@);
    assert(crate::text::occurs_at(line, "<<"@, n));
    crate::text::lemma_find_from(line, "<<"@, 0);
    if let Some(k) = find_from(line, "<<"@, 0) {
        if k < n {
            assert(line.subrange(k, k + 2)[0] == line[k]);
            assert(key[k] == '<');
        }
    }
    assert(line.take(n) =~= key);
    assert(line.skip(n + 2) =~= delim);
}

/// A heredoc `KEY<<DELIM` (a key without `<`, a non-empty delimiter) gives
/// `KEY` the lines that follow it joined with `\n`, blank lines included,
/// up to the first line that is `DELIM` without trailing white space;
/// reading then goes on after that line.  With no such line, the heredoc
/// takes every line to the end.
pub proof fn law_heredoc_takes_lines_to_delimiter(
    ls: Seq<Seq<char>>,
    i: int,
    m: Map<Seq<char>, Seq<char>>,
    key: Seq<char>,
    delim: Seq<char>,
    end: int,
)
    requires
        0 <= i < end <= ls.len(),
        key.len() > 0,
        !key.contains('<'),
        delim.len() > 0,
        trim_end_of(ls[i]) == key + "<<"@ + delim,
        forall|k: int| i < k < end ==> trim_end_of(#[trigger] ls[k]) != delim,
        end < ls.len() ==> trim_end_of(ls[end]) == delim,
    ensures
        end < ls.len() ==> github_file_from(ls, i, m) == github_file_from(
            ls,
            end + 1,
            m.insert(key, join_lines(ls.subrange(i + 1, end))),
        ),
        end == ls.len() ==> github_file_from(ls, i, m) == m.insert(
            key,
            join_lines(ls.subrange(i + 1, end)),
        ),
{
    lemma_heredoc_head(key, delim);
    lemma_heredoc_end_at(ls, i + 1, end, delim);
    reveal_strlit("<<");
    assert(trim_end_of(ls[i]).len() > 0);
}

/// Adds the `KEY=value` line `line` to `m` (`with_assignment`).
fn add_assignment(m: &mut StrMap, line: &[char])
    ensures
        final(m)@ == with_assignment(old(m)@, line@),
{
    let n = line.len();
    match find_char(line, '=', 0) {
        Some(eq) => {
            proof {
                lemma_find_char_from(line@, '=', 0);
            }
            let key = string_of_range(line, 0, eq);
            let value = string_of_range(line, eq + 1, n);
            assert(key@ =~= line@.take(eq as int));
            assert(value@ =~= line@.skip(eq + 1));
            m.insert(key, value);
        },
        None => {},
    }
}

/// Parses the content of a `GITHUB_OUTPUT` / `GITHUB_ENV` file
/// (`github_file`), with `KEY=value` lines and `KEY<<DELIM` heredocs.
pub fn parse_github_file_content(content: &str) -> (m: StrMap)
    ensures
        m@ == github_file(content@),
{
    let cs = chars_of(content);
    let ls = lines(cs.as_slice());
    let ghost l = lines_of(content@);
    assert(ls@.len() == l.len());
    let mut m = StrMap::new();
    let mut i: usize = 0;
    let heredoc_mark = chars_of("<<");
    while i < ls.len()
        invariant
            i <= ls@.len() == l.len(),
            forall|k: int| 0 <= k < ls@.len() ==> #[trigger] ls@[k]@ == l[k],
            heredoc_mark@ == "<<"@,
            github_file(content@) == github_file_from(l, i as int, m@),
        decreases ls@.len() - i,
    {
        let line = trim_end_chars(ls[i].as_slice());
        assert(line@ == trim_end_of(l[i as int]));
        if line.len() == 0 {
            i += 1;
            continue;
        }
        let n = line.len();
        match find_chars(line.as_slice(), heredoc_mark.as_slice(), 0) {
            Some(pos) => {
                proof {
                    crate::text::lemma_find_from(line@, "<<"@, 0);
                    reveal_strlit("<<");
                }
                let key_chars = string_of_range(line.as_slice(), 0, pos);
                let delim = string_of_range(line.as_slice(), pos + 2, n);
                assert(key_chars@ =~= line@.take(pos as int));
                assert(delim@ =~= line@.skip(pos + 2));
                if pos == 0 || pos + 2 == n {
                    add_assignment(&mut m, line.as_slice());
                    i += 1;
                } else {
                    let delim_chars = chars_of(delim.as_str());
                    let mut value = String::new();
                    let mut j: usize = i + 1;
                    proof {
                        lemma_heredoc_end(l, i + 1, delim@);
                    }
                    loop
                        invariant
                            i < j <= ls@.len() == l.len(),
                            forall|k: int| 0 <= k < ls@.len() ==> #[trigger] ls@[k]@ == l[k],
                            delim_chars@ == delim@,
                            heredoc_end(l, i + 1, delim@) == heredoc_end(l, j as int, delim@),
                            value@ == join_lines(l.subrange(i + 1, j as int)),
                        ensures
                            i < j <= ls@.len(),
                            heredoc_end(l, i + 1, delim@) == j,
                            value@ == join_lines(l.subrange(i + 1, j as int)),
                        decreases ls@.len() - j,
                    {
                        if j >= ls.len() {
                            break;
                        }
                        let t = trim_end_chars(ls[j].as_slice());
                        if crate::text::chars_eq(t.as_slice(), delim_chars.as_slice()) {
                            assert(trim_end_of(l[j as int]) == delim@);
                            break;
                        }
                        let piece = string_of(ls[j].as_slice());
                        if j > i + 1 {
                            push_char(&mut value, '\n');
                        }
                        let ghost before = value@;
                        value.append(piece.as_str());
                        proof {
                            let sub = l.subrange(i + 1, j + 1);
                            assert(sub.drop_last() =~= l.subrange(i + 1, j as int));
                            if j == i + 1 {
                                assert(l.subrange(i + 1, j as int).len() == 0);
                            }
                            assert(value@ =~= join_lines(sub));
                        }
                        j += 1;
                    }
                    m.insert(key_chars, value);
                    if j < ls.len() {
                        i = j + 1;
                    } else {
                        i = j;
                    }
                }
            },
            None => {
                add_assignment(&mut m, line.as_slice());
                i += 1;
            },
        }
    }
    m
}

/// The paths of a `GITHUB_PATH` file whose lines are `ls`, from line `i` on:
/// each line without surrounding white space, empty ones left out.
pub open spec fn path_lines_from(ls: Seq<Seq<char>>, i: int) -> Seq<Seq<char>>
    decreases ls.len() - i,
{
    if i < 0 || i >= ls.len() {
        Seq::empty()
    } else if trim_of(ls[i]).len() == 0 {
        path_lines_from(ls, i + 1)
    } else {
        seq![trim_of(ls[i])] + path_lines_from(ls, i + 1)
    }
}

/// The views of a list of strings.
pub open spec fn strings_view(v: Seq<String>) -> Seq<Seq<char>> {
    v.map_values(|s: String| s@)
}

/// Parses the content of a `GITHUB_PATH` file: its non-empty lines,
/// trimmed.
pub fn parse_github_path_content(content: &str) -> (r: Vec<String>)
    ensures
        strings_view(r@) == path_lines_from(lines_of(content@), 0),
{
    let cs = chars_of(content);
    let ls = lines(cs.as_slice());
    let ghost l = lines_of(content@);
    let mut r: Vec<String> = Vec::new();
    let mut i: usize = 0;
    while i < ls.len()
        invariant
            i <= ls@.len() == l.len(),
            forall|k: int| 0 <= k < ls@.len() ==> #[trigger] ls@[k]@ == l[k],
            path_lines_from(l, 0) == strings_view(r@) + path_lines_from(l, i as int),
        decreases ls@.len() - i,
    {
        let t = trim_chars(ls[i].as_slice());
        assert(t@ == trim_of(l[i as int]));
        if t.len() > 0 {
            let ghost before = r@;
            r.push(string_of(t.as_slice()));
            assert(strings_view(r@) =~= strings_view(before).push(t@));
            assert(strings_view(r@) + path_lines_from(l, i + 1) =~= strings_view(before) + (
            seq![t@] + path_lines_from(l, i + 1)));
        }
        i += 1;
    }
    assert(strings_view(r@) + path_lines_from(l, i as int) =~= strings_view(r@));
    r
}

/// The variables of a `KEY=VALUE` env file whose lines are `ls`, from line
/// `i` on, added to `m`: lines are trimmed; empty ones and those starting
/// with `#` are skipped; key and value are trimmed too; lines without `=`
/// add nothing.
pub open spec fn env_file_from(ls: Seq<Seq<char>>, i: int, m: Map<Seq<char>, Seq<char>>) -> Map<
    Seq<char>,
    Seq<char>,
>
    decreases ls.len() - i,
{
    if i < 0 || i >= ls.len() {
        m
    } else {
        let line = trim_of(ls[i]);
        if line.len() == 0 || line[0] == '#' {
            env_file_from(ls, i + 1, m)
        } else {
            match find_char_from(line, '=', 0) {
                Some(pos) => env_file_from(
                    ls,
                    i + 1,
                    m.insert(trim_of(line.take(pos)), trim_of(line.skip(pos + 1))),
                ),
                None => env_file_from(ls, i + 1, m),
            }
        }
    }
}

/// Parses the content of a `KEY=VALUE` env file with `#` comments
/// (`env_file_from`).
pub fn parse_env_file_content(content: &str) -> (m: StrMap)
    ensures
        m@ == env_file_from(lines_of(content@), 0, Map::empty()),
{
    let cs = chars_of(content);
    let ls = lines(cs.as_slice());
    let ghost l = lines_of(content@);
    let mut m = StrMap::new();
    let mut i: usize = 0;
    while i < ls.len()
        invariant
            i <= ls@.len() == l.len(),
            forall|k: int| 0 <= k < ls@.len() ==> #[trigger] ls@[k]@ == l[k],
            env_file_from(l, 0, Map::empty()) == env_file_from(l, i as int, m@),
        decreases ls@.len() - i,
    {
        let line = trim_chars(ls[i].as_slice());
        assert(line@ == trim_of(l[i as int]));
        let n = line.len();
        if n > 0 && line[0] != '#' {
            match find_char(line.as_slice(), '=', 0) {
                Some(pos) => {
                    proof {
                        lemma_find_char_from(line@, '=', 0);
                    }
                    let key_part = string_of_range(line.as_slice(), 0, pos);
                    let value_part = string_of_range(line.as_slice(), pos + 1, n);
                    assert(key_part@ =~= line@.take(pos as int));
                    assert(value_part@ =~= line@.skip(pos + 1));
                    let key = crate::text::trim(key_part.as_str());
                    let value = crate::text::trim(value_part.as_str());
                    m.insert(key, value);
                },
                None => {},
            }
        }
        i += 1;
    }
    m
}

} // verus!
