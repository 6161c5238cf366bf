//! Matching a file path given by a user against the indexed paths by its
//! ending, the last resort before a path is given up on.

use vstd::prelude::*;
use crate::paths::{normalize_path, normalized, slashes, slashes_of};
use crate::registry::names_of;
use crate::text::{chars_of, ends_with, has_suffix, push_all};

verus! {

broadcast use vstd::string::group_string_axioms;

/// The form a path is compared by its ending in: normalized, with `/`
/// separators.
pub open spec fn suffix_form(p: Seq<char>) -> Seq<char> {
    slashes(normalized(p))
}

/// An indexed path ends with the wanted one, or with `/` and the wanted one
/// (both with `/` separators).
pub open spec fn ends_like(key: Seq<char>, wanted: Seq<char>) -> bool {
    has_suffix(slashes(key), wanted) || has_suffix(slashes(key), seq!['/'] + wanted)
}

/// The first of `keys[i..]` that ends with `wanted`, by index.
pub open spec fn first_ending(keys: Seq<Seq<char>>, wanted: Seq<char>, i: int) -> Option<int>
    decreases keys.len() - i,
{
    if i < 0 || i >= keys.len() {
        None
    } else if ends_like(keys[i], wanted) {
        Some(i)
    } else {
        first_ending(keys, wanted, i + 1)
    }
}

/// Ending with `/` and a text means ending with that text, so the second
/// alternative of `ends_like` needs no test of its own.
proof fn lemma_slash_suffix(s: Seq<char>, n: Seq<char>)
    requires
        has_suffix(s, seq!['/'] + n),
    ensures
        has_suffix(s, n),
{
    let m = seq!['/'] + n;
    assert(s.skip(s.len() - m.len()).skip(1) =~= s.skip(s.len() - n.len()));
    assert(m.skip(1) =~= n);
}

/// The index of the first indexed path (in the order given) whose `/` form
/// ends with `input_path` normalized and with `/` separators.
pub fn suffix_match(keys: &[String], input_path: &str) -> (r: Option<usize>)
    ensures
        match r {
            Some(i) => i < keys@.len() && first_ending(names_of(keys@), suffix_form(input_path@), 0)
                == Some(i as int),
            None => first_ending(names_of(keys@), suffix_form(input_path@), 0) is None,
        },
{
    let norm = normalize_path(input_path);
    let nv = chars_of(norm.as_str());
    let wanted = slashes_of(&nv);
    let ghost ks = names_of(keys@);
    let mut i: usize = 0;
    while i < keys.len()
        invariant
            i <= keys@.len(),
            ks == names_of(keys@),
            wanted@ == suffix_form(input_path@),
            first_ending(ks, wanted@, 0) == first_ending(ks, wanted@, i as int),
        decreases keys@.len() - i,
    {
        let kv = chars_of(keys[i].as_str());
        let k = slashes_of(&kv);
        assert(ks[i as int] == keys@[i as int]@);
        if ends_with(&k, &wanted) {
            return Some(i);
        }
        proof {
            if has_suffix(k@, seq!['/'] + wanted@) {
                lemma_slash_suffix(k@, wanted@);
            }
        }
        i += 1;
    }
    None
}

/// The two `LIKE` patterns a path is looked up by its ending with in the
/// store: `%` and the path with `\` separators, and `%` and the path with
/// `/` separators.
pub open spec fn suffix_patterns(p: Seq<char>) -> (Seq<char>, Seq<char>) {
    (
        seq!['%'] + p.map_values(|c: char| if c == '/' { '\\' } else { c }),
        seq!['%'] + slashes(p),
    )
}

/// The `LIKE` patterns for finding `input_path` by its ending.
pub fn suffix_like_patterns(input_path: &str) -> (r: (String, String))
    ensures
        r.0@ == suffix_patterns(input_path@).0,
        r.1@ == suffix_patterns(input_path@).1,
{
    let v = chars_of(input_path);
    let mut back: Vec<char> = Vec::new();
    let mut i: usize = 0;
    while i < v.len()
        invariant
            v@ == input_path@,
            i <= v@.len(),
            back@ == v@.take(i as int).map_values(|c: char| if c == '/' { '\\' } else { c }),
        decreases v@.len() - i,
    {
        let c = if v[i] == '/' {
            '\\'
        } else {
            v[i]
        };
        back.push(c);
        assert(v@.take(i + 1).map_values(|c: char| if c == '/' { '\\' } else { c }) =~= v@.take(
            i as int,
        ).map_values(|c: char| if c == '/' { '\\' } else { c }).push(c));
        i += 1;
    }
    assert(v@.take(i as int) =~= v@);
    let fwd = slashes_of(&v);
    proof {
        reveal_strlit("%");
    }
    let mut a = "%".to_owned();
    push_all(&mut a, &back);
    let mut b = "%".to_owned();
    push_all(&mut b, &fwd);
    assert(a@ =~= suffix_patterns(input_path@).0);
    assert(b@ =~= suffix_patterns(input_path@).1);
    (a, b)
}

} // verus!
