//! How a `run` step's script is handed to a shell, and how secrets are kept
//! out of what is logged.
use crate::text::{chars_of, contains_chars, contains_seq, find_chars, find_from, is_white_space, lemma_find_from, push_str, str_eq, string_of, string_of_range, white_space};
use vstd::prelude::*;

verus! {

/// What running a script gave: its exit code and what it wrote.
pub struct ExecResult {
    pub exit_code: i32,
    pub stdout: String,
    pub stderr: String,
}

/// The views of a list of strings.
pub open spec fn strs(v: Seq<String>) -> Seq<Seq<char>> {
    v.map_values(|s: String| s@)
}

/// The number of leading characters of `s` that are not white space.
pub open spec fn word_len(s: Seq<char>) -> nat
    decreases s.len(),
{
    if s.len() > 0 && !white_space(s[0]) {
        1 + word_len(s.drop_first())
    } else {
        0
    }
}

/// The words of `s`: the runs of non-white-space characters
/// (`str::split_whitespace`).
pub open spec fn words_of(s: Seq<char>) -> Seq<Seq<char>>
    decreases s.len(),
{
    if s.len() == 0 {
        Seq::empty()
    } else if white_space(s[0]) {
        words_of(s.drop_first())
    } else {
        let n = word_len(s);
        if 0 < n <= s.len() {
            seq![s.take(n as int)] + words_of(s.skip(n as int))
        } else {
            Seq::empty()
        }
    }
}

proof fn lemma_word_len(s: Seq<char>)
    ensures
        word_len(s) <= s.len(),
        s.len() > 0 && !white_space(s[0]) ==> word_len(s) > 0,
        word_len(s) < s.len() ==> white_space(s[word_len(s) as int]),
        forall|j: int| 0 <= j < word_len(s) ==> !white_space(#[trigger] s[j]),
    decreases s.len(),
{
    if s.len() > 0 && !white_space(s[0]) {
        lemma_word_len(s.drop_first());
        assert forall|j: int| 0 <= j < word_len(s) implies !white_space(#[trigger] s[j]) by {
            if j > 0 {
                assert(s[j] == s.drop_first()[j - 1]);
            }
        }
    }
}

proof fn lemma_word_len_at(s: Seq<char>, k: int)
    requires
        0 <= k <= s.len(),
        forall|j: int| 0 <= j < k ==> !white_space(#[trigger] s[j]),
        k == s.len() || white_space(s[k]),
    ensures
        word_len(s) == k,
    decreases k,
{
    if k > 0 {
        lemma_word_len_at(s.drop_first(), k - 1);
    }
}

/// The words of `s` (`words_of`).
pub fn split_whitespace(s: &str) -> (r: Vec<String>)
    ensures
        strs(r@) == words_of(s@),
{
    let cs = chars_of(s);
    let n = cs.len();
    let mut r: Vec<String> = Vec::new();
    let mut i: usize = 0;
    assert(cs@.skip(0) =~= cs@);
    while i < n
        invariant
            i <= n == cs@.len(),
            cs@ == s@,
            words_of(s@) == strs(r@) + words_of(cs@.skip(i as int)),
        decreases n - i,
    {
        let ghost rest = cs@.skip(i as int);
        if is_white_space(cs[i]) {
            assert(rest.drop_first() =~= cs@.skip(i + 1));
            i += 1;
        } else {
            let mut j = i;
            while j < n && !is_white_space(cs[j])
                invariant
                    i <= j <= n == cs@.len(),
                    forall|k: int| i <= k < j ==> !white_space(#[trigger] cs@[k]),
                decreases n - j,
            {
                j += 1;
            }
            proof {
                assert forall|k: int| 0 <= k < j - i implies !white_space(#[trigger] rest[k]) by {
                    assert(rest[k] == cs@[i + k]);
                }
                if j < n {
                    assert(rest[j - i] == cs@[j as int]);
                }
                lemma_word_len_at(rest, j - i);
                assert(rest.skip(j - i) =~= cs@.skip(j as int));
            }
            let w = string_of_range(cs.as_slice(), i, j);
            let ghost before = r@;
            r.push(w);
            proof {
                assert(w@ =~= rest.take(j - i));
                assert(strs(r@) =~= strs(before).push(w@));
                assert(strs(r@) + words_of(cs@.skip(j as int)) =~= strs(before) + (seq![w@]
                    + words_of(cs@.skip(j as int))));
            }
            i = j;
        }
    }
    assert(words_of(cs@.skip(i as int)) =~= Seq::<Seq<char>>::empty());
    assert(strs(r@) + Seq::<Seq<char>>::empty() =~= strs(r@));
    r
}

/// The program and arguments for a shell name; `{0}` stands for the
/// script's path.  Known shells have fixed templates; a name holding `{0}`
/// is a template of its own, split at white space; any other name is run
/// with `-e {0}`.
pub open spec fn shell_template(shell: Seq<char>) -> (Seq<char>, Seq<Seq<char>>) {
    if shell == "bash"@ {
        ("bash"@, seq!["--noprofile"@, "--norc"@, "-eo"@, "pipefail"@, "{0}"@])
    } else if shell == "sh"@ {
        ("sh"@, seq!["-e"@, "{0}"@])
    } else if shell == "python"@ {
        ("python3"@, seq!["{0}"@])
    } else if shell == "pwsh"@ {
        ("pwsh"@, seq!["-command"@, ". '{0}'"@])
    } else if contains_seq(shell, "{0}"@) {
        (words_of(shell)[0], words_of(shell).drop_first())
    } else {
        (shell, seq!["-e"@, "{0}"@])
    }
}

proof fn lemma_template_has_word(shell: Seq<char>)
    requires
        contains_seq(shell, "{0}"@),
    ensures
        words_of(shell).len() > 0,
{
    reveal_strlit("{0}");
    let i = choose|i: int| crate::text::occurs_at(shell, "{0}"@, i);
    assert(shell.subrange(i, i + 3)[0] == shell[i]);
    assert(shell[i] == '{');
    lemma_words_nonempty(shell, i);
}

proof fn lemma_words_nonempty(s: Seq<char>, i: int)
    requires
        0 <= i < s.len(),
        !white_space(s[i]),
    ensures
        words_of(s).len() > 0,
    decreases s.len(),
{
    if white_space(s[0]) {
        assert(s.drop_first()[i - 1] == s[i]);
        lemma_words_nonempty(s.drop_first(), i - 1);
    } else {
        lemma_word_len(s);
    }
}

fn strings(items: &[&str]) -> (r: Vec<String>)
    ensures
        strs(r@) == items@.map_values(|s: &str| s@),
{
    let mut r: Vec<String> = Vec::new();
    let mut i: usize = 0;
    while i < items.len()
        invariant
            i <= items@.len(),
            strs(r@) == items@.map_values(|s: &str| s@).take(i as int),
        decreases items@.len() - i,
    {
        let ghost before = r@;
        r.push(String::from_str(items[i]));
        assert(strs(r@) =~= strs(before).push(items@[i as int]@));
        assert(items@.map_values(|s: &str| s@).take(i + 1) =~= items@.map_values(|s: &str| s@).take(
            i as int,
        ).push(items@[i as int]@));
        i += 1;
    }
    assert(items@.map_values(|s: &str| s@).take(i as int) =~= items@.map_values(|s: &str| s@));
    r
}

/// The program and arguments for a shell name (`shell_template`).
pub fn resolve_shell_template(shell: &str) -> (r: (String, Vec<String>))
    ensures
        r.0@ == shell_template(shell@).0,
        strs(r.1@) == shell_template(shell@).1,
{
    if str_eq(shell, "bash") {
        let args = strings(&["--noprofile", "--norc", "-eo", "pipefail", "{0}"]);
        assert(strs(args@) =~= seq!["--noprofile"@, "--norc"@, "-eo"@, "pipefail"@, "{0}"@]);
        return (String::from_str("bash"), args);
    }
    if str_eq(shell, "sh") {
        let args = strings(&["-e", "{0}"]);
        assert(strs(args@) =~= seq!["-e"@, "{0}"@]);
        return (String::from_str("sh"), args);
    }
    if str_eq(shell, "python") {
        let args = strings(&["{0}"]);
        assert(strs(args@) =~= seq!["{0}"@]);
        return (String::from_str("python3"), args);
    }
    if str_eq(shell, "pwsh") {
        let args = strings(&["-command", ". '{0}'"]);
        assert(strs(args@) =~= seq!["-command"@, ". '{0}'"@]);
        return (String::from_str("pwsh"), args);
    }
    let cs = chars_of(shell);
    let mark = chars_of("{0}");
    if contains_chars(cs.as_slice(), mark.as_slice()) {
        proof {
            lemma_template_has_word(shell@);
        }
        let mut parts = split_whitespace(shell);
        let ghost all = strs(parts@);
        let program = parts.remove(0);
        assert(strs(parts@) =~= all.drop_first());
        return (program, parts);
    }
    let args = strings(&["-e", "{0}"]);
    assert(strs(args@) =~= seq!["-e"@, "{0}"@]);
    (String::from_str(shell), args)
}

/// `s` with every occurrence of `pat` (a non-empty pattern, taken left to
/// right without overlap) replaced by `rep` (`str::replace`).
pub open spec fn replace_all(s: Seq<char>, pat: Seq<char>, rep: Seq<char>) -> Seq<char>
    decreases s.len(),
{
    if pat.len() == 0 {
        s
    } else {
        match find_from(s, pat, 0) {
            Some(k) => if 0 <= k && k + pat.len() <= s.len() {
                s.take(k) + rep + replace_all(s.skip(k + pat.len()), pat, rep)
            } else {
                s
            },
            None => s,
        }
    }
}

proof fn lemma_find_shift(s: Seq<char>, pat: Seq<char>, from: int)
    requires
        0 <= from <= s.len(),
        pat.len() > 0,
    ensures
        find_from(s, pat, from) matches Some(k) ==> find_from(s.skip(from), pat, 0) == Some(k
            - from),
        find_from(s, pat, from) is None ==> find_from(s.skip(from), pat, 0) is None,
    decreases s.len() - from,
{
    lemma_find_shift_gen(s, pat, from, from);
}

proof fn lemma_find_shift_gen(s: Seq<char>, pat: Seq<char>, base: int, from: int)
    requires
        0 <= base <= from,
        base <= s.len(),
        pat.len() > 0,
    ensures
        find_from(s, pat, from) matches Some(k) ==> find_from(s.skip(base), pat, from - base)
            == Some(k - base),
        find_from(s, pat, from) is None ==> find_from(s.skip(base), pat, from - base) is None,
    decreases s.len() + 1 - from,
{
    let t = s.skip(base);
    if from + pat.len() > s.len() {
    } else {
        assert(t.subrange(from - base, from - base + pat.len()) =~= s.subrange(
            from,
            from + pat.len(),
        ));
        if !crate::text::occurs_at(s, pat, from) {
            lemma_find_shift_gen(s, pat, base, from + 1);
        }
    }
}

/// `s` with every occurrence of `pat` replaced by `rep` (`replace_all`).
pub fn replace_str(s: &str, pat: &str, rep: &str) -> (r: String)
    ensures
        r@ == replace_all(s@, pat@, rep@),
{
    let cs = chars_of(s);
    let ps = chars_of(pat);
    let n = cs.len();
    let m = ps.len();
    if m == 0 {
        return string_of(cs.as_slice());
    }
    let mut r = String::new();
    let mut i: usize = 0;
    assert(cs@.skip(0) =~= cs@);
    loop
        invariant
            i <= n == cs@.len(),
            m == ps@.len() > 0,
            cs@ == s@,
            ps@ == pat@,
            replace_all(s@, pat@, rep@) == r@ + replace_all(cs@.skip(i as int), pat@, rep@),
        decreases n - i,
    {
        let ghost rest = cs@.skip(i as int);
        let found = find_chars(cs.as_slice(), ps.as_slice(), i);
        proof {
            lemma_find_shift(cs@, ps@, i as int);
            lemma_find_from(cs@, ps@, i as int);
        }
        match found {
            Some(k) => {
                let ghost before = r@;
                let piece = string_of_range(cs.as_slice(), i, k);
                push_str(&mut r, piece.as_str());
                push_str(&mut r, rep);
                proof {
                    assert(piece@ =~= rest.take(k - i));
                    assert(rest.skip(k - i + m) =~= cs@.skip(k + m));
                    assert(r@ + replace_all(cs@.skip(k + m), pat@, rep@) =~= before + (rest.take(
                        k - i,
                    ) + rep@ + replace_all(rest.skip(k - i + m), pat@, rep@)));
                }
                i = k + m;
            },
            None => {
                let piece = string_of_range(cs.as_slice(), i, n);
                push_str(&mut r, piece.as_str());
                assert(piece@ =~= rest);
                return r;
            },
        }
    }
}

/// A line with each non-empty secret, in turn, replaced by `***`.
pub open spec fn redacted(line: Seq<char>, secrets: Seq<Seq<char>>) -> Seq<char>
    decreases secrets.len(),
{
    if secrets.len() == 0 {
        line
    } else if secrets.last().len() == 0 {
        redacted(line, secrets.drop_last())
    } else {
        replace_all(redacted(line, secrets.drop_last()), secrets.last(), "***"@)
    }
}

/// A line with each non-empty secret replaced by `***` (`redacted`).
pub fn redact_secrets(line: &str, secrets: &[String]) -> (r: String)
    ensures
        r@ == redacted(line@, strs(secrets@)),
{
    let mut result = String::from_str(line);
    let mut i: usize = 0;
    while i < secrets.len()
        invariant
            i <= secrets@.len(),
            result@ == redacted(line@, strs(secrets@).take(i as int)),
        decreases secrets@.len() - i,
    {
        assert(strs(secrets@).take(i + 1).drop_last() =~= strs(secrets@).take(i as int));
        if !str_eq(secrets[i].as_str(), "") {
            result = replace_str(result.as_str(), secrets[i].as_str(), "***");
        } else {
            proof {
                reveal_strlit("");
            }
            assert(secrets@[i as int]@.len() == 0);
        }
        i += 1;
    }
    assert(strs(secrets@).take(i as int) =~= strs(secrets@));
    result
}

/// Whether an argument holds the `{0}` placeholder.
pub open spec fn has_placeholder(a: Seq<char>) -> bool {
    contains_seq(a, "{0}"@)
}

/// The arguments a shell is started with: the template's arguments with
/// `{0}` replaced by the script's path when one of them holds it;
/// otherwise the template's arguments followed by `-c` and the script.
pub open spec fn shell_args(template: Seq<Seq<char>>, script_path: Seq<char>, script: Seq<char>) -> Seq<
    Seq<char>,
> {
    if exists|i: int| 0 <= i < template.len() && has_placeholder(template[i]) {
        template.map_values(|a: Seq<char>| replace_all(a, "{0}"@, script_path))
    } else {
        template + seq!["-c"@, script]
    }
}

/// The arguments a shell is started with (`shell_args`).
pub fn shell_invocation_args(template: &Vec<String>, script_path: &str, script: &str) -> (r: Vec<
    String,
>)
    ensures
        strs(r@) == shell_args(strs(template@), script_path@, script@),
{
    let mark = chars_of("{0}");
    let mut any = false;
    let mut i: usize = 0;
    while i < template.len()
        invariant
            i <= template@.len(),
            mark@ == "{0}"@,
            any == exists|j: int| 0 <= j < i && has_placeholder(strs(template@)[j]),
        decreases template@.len() - i,
    {
        let a = chars_of(template[i].as_str());
        if contains_chars(a.as_slice(), mark.as_slice()) {
            any = true;
        }
        assert(strs(template@)[i as int] == a@);
        i += 1;
    }
    let mut r: Vec<String> = Vec::new();
    if any {
        let mut k: usize = 0;
        while k < template.len()
            invariant
                k <= template@.len(),
                strs(r@) == strs(template@).map_values(
                    |a: Seq<char>| replace_all(a, "{0}"@, script_path@),
                ).take(k as int),
            decreases template@.len() - k,
        {
            let ghost before = r@;
            r.push(replace_str(template[k].as_str(), "{0}", script_path));
            assert(strs(r@) =~= strs(before).push(replace_all(strs(template@)[k as int], "{0}"@, script_path@)));
            assert(strs(template@).map_values(|a: Seq<char>| replace_all(a, "{0}"@, script_path@)).take(
                k + 1,
            ) =~= strs(template@).map_values(|a: Seq<char>| replace_all(a, "{0}"@, script_path@)).take(
                k as int,
            ).push(replace_all(strs(template@)[k as int], "{0}"@, script_path@)));
            k += 1;
        }
        assert(strs(template@).map_values(|a: Seq<char>| replace_all(a, "{0}"@, script_path@)).take(
            k as int,
        ) =~= strs(template@).map_values(|a: Seq<char>| replace_all(a, "{0}"@, script_path@)));
    } else {
        r = crate::model::copy_strings(template);
        assert(crate::model::strs(r@) == strs(r@));
        r.push(String::from_str("-c"));
        r.push(String::from_str(script));
        assert(strs(r@) =~= strs(template@) + seq!["-c"@, script@]);
    }
    r
}

} // verus!
