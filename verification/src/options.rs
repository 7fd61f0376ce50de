//! Reading the `KEY=VALUE` options of the command line.
use crate::strmap::StrMap;
use crate::text::{chars_of, find_char, find_char_from, lemma_find_char_from, push_str, string_of_range};
use vstd::prelude::*;

verus! {

/// The pairs read so far from `args`, or the message of the first argument
/// without `=`: the key is what comes before the first `=`, the value what
/// follows it, and a later pair for a key replaces an earlier one.
pub open spec fn kv_pairs(args: Seq<Seq<char>>) -> Result<Map<Seq<char>, Seq<char>>, Seq<char>>
    decreases args.len(),
{
    if args.len() == 0 {
        Ok(Map::empty())
    } else {
        match kv_pairs(args.drop_last()) {
            Err(m) => Err(m),
            Ok(m) => {
                let s = args.last();
                match find_char_from(s, '=', 0) {
                    Some(k) => Ok(m.insert(s.take(k), s.skip(k + 1))),
                    None => Err("invalid KEY=VALUE argument: '"@ + s + "'"@),
                }
            },
        }
    }
}

proof fn lemma_kv_pairs_stop(args: Seq<Seq<char>>, i: int)
    requires
        0 <= i <= args.len(),
        kv_pairs(args.take(i)) is Err,
    ensures
        kv_pairs(args) == kv_pairs(args.take(i)),
    decreases args.len() - i,
{
    if i < args.len() {
        assert(args.take(i + 1).drop_last() =~= args.take(i));
        lemma_kv_pairs_stop(args, i + 1);
    } else {
        assert(args.take(i) =~= args);
    }
}

/// Reads `KEY=VALUE` arguments (`kv_pairs`).
pub fn parse_kv_pairs(args: &Vec<String>) -> (r: Result<StrMap, String>)
    ensures
        match kv_pairs(args@.map_values(|s: String| s@)) {
            Ok(m) => r matches Ok(x) && x@ == m,
            Err(m) => r matches Err(x) && x@ == m,
        },
{
    let ghost av = args@.map_values(|s: String| s@);
    let mut out = StrMap::new();
    let mut i: usize = 0;
    while i < args.len()
        invariant
            i <= args@.len(),
            av == args@.map_values(|s: String| s@),
            kv_pairs(av.take(i as int)) == Ok::<Map<Seq<char>, Seq<char>>, Seq<char>>(out@),
        decreases args@.len() - i,
    {
        assert(av.take(i + 1).drop_last() =~= av.take(i as int));
        assert(av.take(i + 1).last() == args@[i as int]@);
        let cs = chars_of(args[i].as_str());
        proof {
            lemma_find_char_from(cs@, '=', 0);
        }
        match find_char(cs.as_slice(), '=', 0) {
            Some(k) => {
                let key = string_of_range(cs.as_slice(), 0, k);
                let value = string_of_range(cs.as_slice(), k + 1, cs.len());
                assert(key@ =~= cs@.take(k as int));
                assert(value@ =~= cs@.skip(k + 1));
                out.insert(key, value);
            },
            None => {
                let mut m = String::from_str("invalid KEY=VALUE argument: '");
                push_str(&mut m, args[i].as_str());
                push_str(&mut m, "'");
                proof {
                    lemma_kv_pairs_stop(av, i + 1);
                }
                return Err(m);
            },
        }
        i += 1;
    }
    assert(av.take(i as int) =~= av);
    Ok(out)
}

} // verus!
