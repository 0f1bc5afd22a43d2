//! File admission: which files the pipeline indexes at all, decided by
//! extension.

use crate::text::str_eq;
use vstd::prelude::*;
use vstd::string::StrSliceExecFns;

verus! {

/// The position of the last occurrence of `c`, or -1.
pub open spec fn last_index_of(s: Seq<char>, c: char) -> int
    decreases s.len(),
{
    if s.len() == 0 {
        -1
    } else if s.last() == c {
        s.len() - 1
    } else {
        last_index_of(s.drop_last(), c)
    }
}

/// The extension of a path: the text after the last dot, provided that
/// dot falls inside the final path component.
pub open spec fn ext_of(path: Seq<char>) -> Seq<char> {
    let d = last_index_of(path, '.');
    let sl = last_index_of(path, '/');
    if d >= 0 && d > sl {
        path.skip(d + 1)
    } else {
        Seq::empty()
    }
}

/// Finds the last occurrence of a character.
pub fn rfind_char(s: &str, c: char) -> (r: Option<usize>)
    ensures
        match r {
            Some(i) => i < s@.len() && last_index_of(s@, c) == i as int,
            None => last_index_of(s@, c) == -1,
        },
{
    let n = s.unicode_len();
    let mut k: usize = n;
    proof {
        assert(s@.take(n as int) =~= s@);
    }
    while k > 0
        invariant
            n == s@.len(),
            0 <= k <= n,
            last_index_of(s@, c) == last_index_of(s@.take(k as int), c),
        decreases k,
    {
        proof {
            assert(s@.take(k as int).last() == s@[k - 1]);
            assert(s@.take(k as int).drop_last() =~= s@.take(k - 1));
        }
        if s.get_char(k - 1) == c {
            return Some(k - 1);
        }
        k -= 1;
    }
    proof {
        assert(s@.take(0).len() == 0);
    }
    None
}

/// Whether the pipeline indexes this file at all.
pub fn is_supported_file(path: &str) -> (r: bool)
    ensures
        r == {
            let e = ext_of(path@);
            e == "rs"@ || e == "ts"@ || e == "tsx"@ || e == "js"@ || e == "jsx"@ || e == "vue"@
                || e == "svelte"@
        },
{
    let d = rfind_char(path, '.');
    let sl = rfind_char(path, '/');
    let n = path.unicode_len();
    let start = match d {
        None => {
            proof {
                assert(ext_of(path@) =~= Seq::<char>::empty());
                reveal_strlit("rs");
                reveal_strlit("ts");
                reveal_strlit("tsx");
                reveal_strlit("js");
                reveal_strlit("jsx");
                reveal_strlit("vue");
                reveal_strlit("svelte");
            }
            return false;
        },
        Some(di) => {
            let inside = match sl {
                None => true,
                Some(si) => di > si,
            };
            if !inside {
                proof {
                    assert(ext_of(path@) =~= Seq::<char>::empty());
                    reveal_strlit("rs");
                    reveal_strlit("ts");
                    reveal_strlit("tsx");
                    reveal_strlit("js");
                    reveal_strlit("jsx");
                    reveal_strlit("vue");
                    reveal_strlit("svelte");
                }
                return false;
            }
            di + 1
        },
    };
    let ext = path.substring_char(start, n);
    proof {
        assert(ext@ =~= ext_of(path@));
    }
    str_eq(ext, "rs") || str_eq(ext, "ts") || str_eq(ext, "tsx") || str_eq(ext, "js") || str_eq(
        ext,
        "jsx",
    ) || str_eq(ext, "vue") || str_eq(ext, "svelte")
}

} // verus!
