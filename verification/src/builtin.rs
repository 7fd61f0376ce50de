//! The actions the runner emulates itself, and the decisions of its cache
//! emulation (`actions/cache`, `actions/cache/save`, `actions/cache/restore`).
use crate::error::{Error, SpecError};
use crate::strmap::{StrMap, fold_insert};
use crate::text::{alphanumeric, chars_of, copy_string, find_char, find_char_from, has_prefix, has_suffix, is_alphanumeric, lemma_find_char_from, lines, lines_of, push_char, push_str, starts_with_str, ends_with_str, str_eq, string_of_range, trim_of};
use vstd::prelude::*;

verus! {

/// An action the runner performs itself.
#[derive(Debug, Clone, Copy, PartialEq, Eq, Structural)]
pub enum BuiltinAction {
    Checkout,
    UploadArtifact,
    DownloadArtifact,
    Cache,
    CacheSave,
    CacheRestore,
    /// An action whose work the local machine is assumed to have done
    /// already (toolchain setup, build caches): it succeeds with no output.
    NoOp,
}

/// The action name of a reference: what comes before the first `@`.
pub open spec fn action_name_of(uses: Seq<char>) -> Seq<char> {
    match find_char_from(uses, '@', 0) {
        Some(k) => uses.take(k),
        None => uses,
    }
}

/// The built-in that handles an action name, if any.
pub open spec fn builtin_of(name: Seq<char>) -> Option<BuiltinAction> {
    if name == "actions/checkout"@ {
        Some(BuiltinAction::Checkout)
    } else if name == "actions/upload-artifact"@ {
        Some(BuiltinAction::UploadArtifact)
    } else if name == "actions/download-artifact"@ {
        Some(BuiltinAction::DownloadArtifact)
    } else if name == "actions/cache"@ {
        Some(BuiltinAction::Cache)
    } else if name == "actions/cache/save"@ {
        Some(BuiltinAction::CacheSave)
    } else if name == "actions/cache/restore"@ {
        Some(BuiltinAction::CacheRestore)
    } else if name == "Swatinem/rust-cache"@ || name == "actions/setup-node"@ || name
        == "actions/setup-python"@ || name == "actions/setup-java"@ || name == "actions/setup-go"@
        || name == "actions/setup-dotnet"@ {
        Some(BuiltinAction::NoOp)
    } else {
        None
    }
}

/// The action name of a reference (`action_name_of`).
pub fn action_name(uses: &str) -> (r: String)
    ensures
        r@ == action_name_of(uses@),
{
    let cs = chars_of(uses);
    let n = cs.len();
    match find_char(cs.as_slice(), '@', 0) {
        Some(k) => {
            proof {
                lemma_find_char_from(cs@, '@', 0);
            }
            string_of_range(cs.as_slice(), 0, k)
        },
        None => {
            assert(cs@.subrange(0, n as int) =~= cs@);
            string_of_range(cs.as_slice(), 0, n)
        },
    }
}

/// The built-in that handles a `uses:` reference, judged by its action
/// name (the version after `@` plays no part); `None` when the action is
/// not one the runner emulates.
pub fn try_builtin_action(uses: &str) -> (r: Option<BuiltinAction>)
    ensures
        r == builtin_of(action_name_of(uses@)),
{
    let name = action_name(uses);
    let n = name.as_str();
    if str_eq(n, "actions/checkout") {
        Some(BuiltinAction::Checkout)
    } else if str_eq(n, "actions/upload-artifact") {
        Some(BuiltinAction::UploadArtifact)
    } else if str_eq(n, "actions/download-artifact") {
        Some(BuiltinAction::DownloadArtifact)
    } else if str_eq(n, "actions/cache") {
        Some(BuiltinAction::Cache)
    } else if str_eq(n, "actions/cache/save") {
        Some(BuiltinAction::CacheSave)
    } else if str_eq(n, "actions/cache/restore") {
        Some(BuiltinAction::CacheRestore)
    } else if str_eq(n, "Swatinem/rust-cache") || str_eq(n, "actions/setup-node") || str_eq(
        n,
        "actions/setup-python",
    ) || str_eq(n, "actions/setup-java") || str_eq(n, "actions/setup-go") || str_eq(
        n,
        "actions/setup-dotnet",
    ) {
        Some(BuiltinAction::NoOp)
    } else {
        None
    }
}

/// A cache key made safe as a file name: every character that is not
/// alphanumeric, `-` or `_` becomes `_`.
pub open spec fn sanitized(key: Seq<char>) -> Seq<char> {
    key.map_values(|c: char| if alphanumeric(c) || c == '-' || c == '_' { c } else { '_' })
}

/// A sanitized cache key holds only alphanumeric characters, `-` and `_`,
/// and is as long as the key.
pub proof fn law_sanitized_key_is_safe(key: Seq<char>)
    ensures
        sanitized(key).len() == key.len(),
        forall|i: int|
            0 <= i < key.len() ==> {
                let c = #[trigger] sanitized(key)[i];
                alphanumeric(c) || c == '-' || c == '_'
            },
{
}

/// A cache key made safe as a file name (`sanitized`).
pub fn sanitize_key(key: &str) -> (r: String)
    ensures
        r@ == sanitized(key@),
{
    let cs = chars_of(key);
    let mut r = String::new();
    let mut i: usize = 0;
    while i < cs.len()
        invariant
            i <= cs@.len(),
            cs@ == key@,
            r@ == sanitized(key@).take(i as int),
        decreases cs@.len() - i,
    {
        let c = cs[i];
        if is_alphanumeric(c) || c == '-' || c == '_' {
            push_char(&mut r, c);
        } else {
            push_char(&mut r, '_');
        }
        assert(sanitized(key@).take(i + 1) =~= sanitized(key@).take(i as int).push(
            sanitized(key@)[i as int],
        ));
        i += 1;
    }
    assert(sanitized(key@).take(i as int) =~= sanitized(key@));
    r
}

/// The archive file name of a cache key.
pub open spec fn archive_name(key: Seq<char>) -> Seq<char> {
    sanitized(key) + ".tar.gz"@
}

/// The archive file name of a cache key (`archive_name`).
pub fn cache_archive_name(key: &str) -> (r: String)
    ensures
        r@ == archive_name(key@),
{
    let mut r = sanitize_key(key);
    push_str(&mut r, ".tar.gz");
    r
}

/// An input of an action, empty when it is missing.
pub open spec fn input_or_empty(inputs: Map<Seq<char>, Seq<char>>, name: Seq<char>) -> Seq<char> {
    if inputs.dom().contains(name) {
        inputs[name]
    } else {
        Seq::empty()
    }
}

fn input(inputs: &StrMap, name: &str) -> (r: String)
    ensures
        r@ == input_or_empty(inputs@, name@),
{
    match inputs.get(name) {
        Some(v) => copy_string(v),
        None => String::new(),
    }
}

/// The restore keys of the cache inputs: `INPUT_RESTORE-KEYS`, or else
/// `INPUT_RESTORE_KEYS`, or nothing.
pub open spec fn restore_keys_input(inputs: Map<Seq<char>, Seq<char>>) -> Seq<char> {
    if inputs.dom().contains("INPUT_RESTORE-KEYS"@) {
        inputs["INPUT_RESTORE-KEYS"@]
    } else {
        input_or_empty(inputs, "INPUT_RESTORE_KEYS"@)
    }
}

/// The non-empty lines of a text, trimmed.
pub open spec fn trimmed_lines_from(ls: Seq<Seq<char>>, i: int) -> Seq<Seq<char>>
    decreases ls.len() - i,
{
    if i < 0 || i >= ls.len() {
        Seq::empty()
    } else if trim_of(ls[i]).len() == 0 {
        trimmed_lines_from(ls, i + 1)
    } else {
        seq![trim_of(ls[i])] + trimmed_lines_from(ls, i + 1)
    }
}

/// The views of a list of strings.
pub open spec fn strs(v: Seq<String>) -> Seq<Seq<char>> {
    v.map_values(|s: String| s@)
}

/// The non-empty lines of `text`, trimmed (`trimmed_lines_from`).
pub fn trimmed_lines(text: &str) -> (r: Vec<String>)
    ensures
        strs(r@) == trimmed_lines_from(lines_of(text@), 0),
{
    let r = crate::env_files::parse_github_path_content(text);
    proof {
        lemma_same_lines(lines_of(text@), 0);
    }
    r
}

proof fn lemma_same_lines(ls: Seq<Seq<char>>, i: int)
    ensures
        trimmed_lines_from(ls, i) == crate::env_files::path_lines_from(ls, i),
    decreases ls.len() - i,
{
    if 0 <= i < ls.len() {
        lemma_same_lines(ls, i + 1);
    }
}

/// What a cache restore works with: the key, the paths, the restore-key
/// prefixes (non-empty lines, trimmed) and the archive name of the key.
pub struct CacheRestorePlan {
    pub key: String,
    pub paths: String,
    pub restore_keys: Vec<String>,
    pub archive: String,
}

/// The error of the cache emulation.
pub open spec fn cache_error(action: Seq<char>, message: Seq<char>) -> SpecError {
    SpecError::Action { action, message }
}

/// Reads the inputs of a cache restore (`actions/cache` or
/// `actions/cache/restore`); refused without a key.
pub fn restore_plan(inputs: &StrMap) -> (r: Result<CacheRestorePlan, Error>)
    ensures
        input_or_empty(inputs@, "INPUT_KEY"@).len() == 0 ==> (r matches Err(e) && e@ == cache_error(
            "actions/cache"@,
            "key input is required"@,
        )),
        input_or_empty(inputs@, "INPUT_KEY"@).len() > 0 ==> (r matches Ok(p) && p.key@
            == input_or_empty(inputs@, "INPUT_KEY"@) && p.paths@ == input_or_empty(
            inputs@,
            "INPUT_PATH"@,
        ) && strs(p.restore_keys@) == trimmed_lines_from(
            lines_of(restore_keys_input(inputs@)),
            0,
        ) && p.archive@ == archive_name(p.key@)),
{
    let key = input(inputs, "INPUT_KEY");
    let paths = input(inputs, "INPUT_PATH");
    let restore_text = match inputs.get("INPUT_RESTORE-KEYS") {
        Some(v) => copy_string(v),
        None => input(inputs, "INPUT_RESTORE_KEYS"),
    };
    proof {
        reveal_strlit("");
        assert(key@.len() == 0 ==> key@ =~= ""@);
    }
    if str_eq(key.as_str(), "") {
        return Err(
            Error::Action {
                action: String::from_str("actions/cache"),
                message: String::from_str("key input is required"),
            },
        );
    }
    proof {
        reveal_strlit("");
    }
    let restore_keys = trimmed_lines(restore_text.as_str());
    let archive = cache_archive_name(key.as_str());
    Ok(CacheRestorePlan { key, paths, restore_keys, archive })
}

/// The cache file a restore-key prefix matches among the files of the
/// cache directory: the first whose name starts with the sanitized prefix
/// and ends with `.tar.gz`.
pub open spec fn first_match_from(names: Seq<Seq<char>>, prefix: Seq<char>, i: int) -> Option<int>
    decreases names.len() - i,
{
    if i < 0 || i >= names.len() {
        None
    } else if has_prefix(names[i], sanitized(prefix)) && has_suffix(names[i], ".tar.gz"@) {
        Some(i)
    } else {
        first_match_from(names, prefix, i + 1)
    }
}

/// The first restore-key prefix, from the `k`-th on, that matches a cache
/// file, with the file it matches.
pub open spec fn restore_match_from(keys: Seq<Seq<char>>, names: Seq<Seq<char>>, k: int) -> Option<
    int,
>
    decreases keys.len() - k,
{
    if k < 0 || k >= keys.len() {
        None
    } else {
        match first_match_from(names, keys[k], 0) {
            Some(i) => Some(i),
            None => restore_match_from(keys, names, k + 1),
        }
    }
}

/// What a cache restore decided: its outputs, and the cache file to
/// extract into the workspace, if any.
pub struct CacheRestore {
    pub outputs: StrMap,
    pub extract: Option<String>,
}

/// The outputs of a cache restore: the primary key, whether the exact key
/// hit, and the key that matched, if any.
pub open spec fn restore_outputs(
    key: Seq<char>,
    exact: bool,
    matched: Option<Seq<char>>,
) -> Seq<(Seq<char>, Seq<char>)> {
    if exact {
        seq![("cache-primary-key"@, key), ("cache-hit"@, "true"@), ("cache-matched-key"@, key)]
    } else {
        match matched {
            Some(m) => seq![
                ("cache-primary-key"@, key),
                ("cache-hit"@, "false"@),
                ("cache-matched-key"@, m),
            ],
            None => seq![("cache-primary-key"@, key), ("cache-hit"@, "false"@)],
        }
    }
}

proof fn lemma_first_match(names: Seq<Seq<char>>, prefix: Seq<char>, i: int)
    requires
        0 <= i,
    ensures
        first_match_from(names, prefix, i) matches Some(k) ==> i <= k < names.len() && has_suffix(
            names[k],
            ".tar.gz"@,
        ),
    decreases names.len() - i,
{
    if i < names.len() && !(has_prefix(names[i], sanitized(prefix)) && has_suffix(
        names[i],
        ".tar.gz"@,
    )) {
        lemma_first_match(names, prefix, i + 1);
    }
}

fn first_match(names: &Vec<String>, prefix: &str) -> (r: Option<usize>)
    ensures
        r matches Some(i) ==> i < names@.len() && has_suffix(names@[i as int]@, ".tar.gz"@)
            && first_match_from(strs(names@), prefix@, 0) == Some(i as int),
        r is None ==> first_match_from(strs(names@), prefix@, 0) is None,
{
    let p = sanitize_key(prefix);
    let mut i: usize = 0;
    while i < names.len()
        invariant
            i <= names@.len(),
            p@ == sanitized(prefix@),
            first_match_from(strs(names@), prefix@, 0) == first_match_from(
                strs(names@),
                prefix@,
                i as int,
            ),
        decreases names@.len() - i,
    {
        if starts_with_str(names[i].as_str(), p.as_str()) && ends_with_str(
            names[i].as_str(),
            ".tar.gz",
        ) {
            assert(strs(names@)[i as int] == names@[i as int]@);
            return Some(i);
        }
        i += 1;
    }
    proof {
        lemma_first_match(strs(names@), prefix@, 0);
    }
    None
}

/// What a restore decides (see `restore`).
pub open spec fn restore_decided(
    plan: CacheRestorePlan,
    archive_exists: bool,
    cache_files: Seq<String>,
    r: CacheRestore,
) -> bool {
    &&& archive_exists ==> (r.extract matches Some(a) && a@ == plan.archive@ && r.outputs@
        == fold_insert(Map::empty(), restore_outputs(plan.key@, true, None)))
    &&& !archive_exists ==> match restore_match_from(strs(plan.restore_keys@), strs(cache_files), 0) {
        Some(i) => r.extract matches Some(a) && a@ == strs(cache_files)[i] && r.outputs@
            == fold_insert(
            Map::empty(),
            restore_outputs(
                plan.key@,
                false,
                Some(strs(cache_files)[i].take(strs(cache_files)[i].len() - 7)),
            ),
        ),
        None => r.extract is None && r.outputs@ == fold_insert(
            Map::empty(),
            restore_outputs(plan.key@, false, None),
        ),
    }
}

/// Decides a cache restore once the file system has been looked at:
/// whether the key's archive exists, and the names of the files in the
/// cache directory.  An existing archive is a hit; otherwise the first
/// restore-key prefix that matches a file gives a partial match (its key is
/// the file name without `.tar.gz`); otherwise it is a miss.
pub fn restore(plan: &CacheRestorePlan, archive_exists: bool, cache_files: &Vec<String>) -> (r:
    CacheRestore)
    ensures
        restore_decided(*plan, archive_exists, cache_files@, r),
{
    let mut v: Vec<(String, String)> = Vec::new();
    v.push((String::from_str("cache-primary-key"), copy_string(&plan.key)));
    if archive_exists {
        v.push((String::from_str("cache-hit"), String::from_str("true")));
        v.push((String::from_str("cache-matched-key"), copy_string(&plan.key)));
        assert(crate::strmap::pairs_view(v@) =~= restore_outputs(plan.key@, true, None));
        let outputs = StrMap::from_pairs(&v);
        let a = copy_string(&plan.archive);
        assert(a@ == plan.archive@);
        let r = CacheRestore { outputs, extract: Some(a) };
        assert(r.extract matches Some(x) && x@ == plan.archive@);
        return r;
    }
    let mut k: usize = 0;
    while k < plan.restore_keys.len()
        invariant
            k <= plan.restore_keys@.len(),
            !archive_exists,
            v@.len() == 1,
            crate::strmap::pairs_view(v@) == seq![("cache-primary-key"@, plan.key@)],
            restore_match_from(strs(plan.restore_keys@), strs(cache_files@), 0)
                == restore_match_from(strs(plan.restore_keys@), strs(cache_files@), k as int),
        decreases plan.restore_keys@.len() - k,
    {
        let found = first_match(cache_files, plan.restore_keys[k].as_str());
        assert(strs(plan.restore_keys@)[k as int] == plan.restore_keys@[k as int]@);
        match found {
            Some(i) => {
                assert(restore_match_from(strs(plan.restore_keys@), strs(cache_files@), k as int)
                    == Some(i as int));
                let name = cache_files[i].as_str();
                let cs = chars_of(name);
                let n = cs.len();
                proof {
                    reveal_strlit(".tar.gz");
                    assert(strs(cache_files@)[i as int] == cache_files@[i as int]@);
                }
                let matched = string_of_range(cs.as_slice(), 0, n - 7);
                assert(matched@ =~= strs(cache_files@)[i as int].take(
                    strs(cache_files@)[i as int].len() - 7,
                ));
                let ghost before = v@;
                let ghost mv = matched@;
                v.push((String::from_str("cache-hit"), String::from_str("false")));
                v.push((String::from_str("cache-matched-key"), matched));
                assert(crate::strmap::pairs_view(before)[0] == ("cache-primary-key"@, plan.key@));
                assert(crate::strmap::pairs_view(v@)[0] == crate::strmap::pairs_view(before)[0]);
                assert(crate::strmap::pairs_view(v@)[1] == ("cache-hit"@, "false"@));
                assert(crate::strmap::pairs_view(v@)[2] == ("cache-matched-key"@, mv));
                assert(crate::strmap::pairs_view(v@) =~= restore_outputs(
                    plan.key@,
                    false,
                    Some(strs(cache_files@)[i as int].take(strs(cache_files@)[i as int].len() - 7)),
                ));
                let outputs = StrMap::from_pairs(&v);
                let a = String::from_str(name);
                let r = CacheRestore { outputs, extract: Some(a) };
                assert(r.extract matches Some(x) && x@ == strs(cache_files@)[i as int]);
                return r;
            },
            None => {},
        }
        k += 1;
    }
    let ghost before = v@;
    v.push((String::from_str("cache-hit"), String::from_str("false")));
    assert(crate::strmap::pairs_view(before)[0] == ("cache-primary-key"@, plan.key@));
    assert(crate::strmap::pairs_view(v@)[0] == crate::strmap::pairs_view(before)[0]);
    assert(crate::strmap::pairs_view(v@)[1] == ("cache-hit"@, "false"@));
    assert(crate::strmap::pairs_view(v@) =~= restore_outputs(plan.key@, false, None));
    CacheRestore { outputs: StrMap::from_pairs(&v), extract: None }
}

/// `actions/cache`: a restore (the save happens after the job), decided
/// as `restore` decides it.
pub fn run_cache(plan: &CacheRestorePlan, archive_exists: bool, cache_files: &Vec<String>) -> (r:
    CacheRestore)
    ensures
        restore_decided(*plan, archive_exists, cache_files@, r),
{
    restore(plan, archive_exists, cache_files)
}

/// What a cache save works with: the key, the archive name of the key and
/// the paths to archive (non-empty lines of the path input, trimmed).
pub struct CacheSavePlan {
    pub key: String,
    pub archive: String,
    pub paths: Vec<String>,
}

/// Reads the inputs of a cache save; refused when the key or the path input
/// is empty.
pub fn save_plan(inputs: &StrMap) -> (r: Result<CacheSavePlan, Error>)
    ensures
        (input_or_empty(inputs@, "INPUT_KEY"@).len() == 0 || input_or_empty(
            inputs@,
            "INPUT_PATH"@,
        ).len() == 0) ==> (r matches Err(e) && e@ == cache_error(
            "actions/cache/save"@,
            "key and path inputs are required"@,
        )),
        (input_or_empty(inputs@, "INPUT_KEY"@).len() > 0 && input_or_empty(
            inputs@,
            "INPUT_PATH"@,
        ).len() > 0) ==> (r matches Ok(p) && p.key@ == input_or_empty(inputs@, "INPUT_KEY"@)
            && p.archive@ == archive_name(p.key@) && strs(p.paths@) == trimmed_lines_from(
            lines_of(input_or_empty(inputs@, "INPUT_PATH"@)),
            0,
        )),
{
    let key = input(inputs, "INPUT_KEY");
    let paths = input(inputs, "INPUT_PATH");
    proof {
        reveal_strlit("");
        assert(key@.len() == 0 ==> key@ =~= ""@);
        assert(paths@.len() == 0 ==> paths@ =~= ""@);
    }
    if str_eq(key.as_str(), "") || str_eq(paths.as_str(), "") {
        return Err(
            Error::Action {
                action: String::from_str("actions/cache/save"),
                message: String::from_str("key and path inputs are required"),
            },
        );
    }
    let archive = cache_archive_name(key.as_str());
    let path_args = trimmed_lines(paths.as_str());
    Ok(CacheSavePlan { key, archive, paths: path_args })
}

} // verus!
