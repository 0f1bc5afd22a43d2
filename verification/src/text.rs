//! Verified character-level text primitives: equality, substring search,
//! ASCII case folding and classification. Everything here is specified
//! over `Seq<char>` views.

use vstd::prelude::*;
use vstd::string::{StrSliceExecFns, StringExecFns};

verus! {

/// Whether the characters of `a` equal the characters of `b`.
pub fn str_eq(a: &str, b: &str) -> (r: bool)
    ensures
        r == (a@ == b@),
{
    let la = a.unicode_len();
    let lb = b.unicode_len();
    if la != lb {
        proof {
            assert(a@ != b@) by {
                assert(a@.len() != b@.len());
            }
        }
        return false;
    }
    let mut i: usize = 0;
    while i < la
        invariant
            la == a@.len(),
            la == b@.len(),
            0 <= i <= la,
            forall|j: int| 0 <= j < i ==> a@[j] == b@[j],
        decreases la - i,
    {
        if a.get_char(i) != b.get_char(i) {
            return false;
        }
        i += 1;
    }
    proof {
        assert(a@ =~= b@);
    }
    true
}

/// Whether the characters of `sub` occur in `s` starting at `at`.
pub open spec fn occurs_at(s: Seq<char>, sub: Seq<char>, at: int) -> bool {
    &&& 0 <= at
    &&& at + sub.len() <= s.len()
    &&& s.subrange(at, at + sub.len() as int) == sub
}

/// Whether `sub` occurs anywhere in `s` at or after `from`.
pub open spec fn occurs_from(s: Seq<char>, sub: Seq<char>, from: int) -> bool {
    exists|at: int| at >= from && occurs_at(s, sub, at)
}

/// The first position at or after `from` where `sub` occurs in `s`, if any.
pub fn find_from(s: &str, sub: &str, from: usize) -> (r: Option<usize>)
    requires
        from <= s@.len(),
    ensures
        match r {
            Some(at) => {
                &&& occurs_at(s@, sub@, at as int)
                &&& at >= from
                &&& forall|p: int| from <= p < at ==> !occurs_at(s@, sub@, p)
            },
            None => forall|p: int| p >= from ==> !occurs_at(s@, sub@, p),
        },
{
    let n = s.unicode_len();
    let m = sub.unicode_len();
    if m > n || from > n - m {
        proof {
            assert(forall|p: int| p >= from ==> !occurs_at(s@, sub@, p));
        }
        return None;
    }
    let mut at: usize = from;
    let ghost mut jw: int = 0;
    while at <= n - m
        invariant
            n == s@.len(),
            m == sub@.len(),
            m <= n,
            from <= at <= n - m + 1,
            forall|p: int| from <= p < at ==> !occurs_at(s@, sub@, p),
        decreases n - at,
    {
        let mut j: usize = 0;
        let mut hit = true;
        while j < m && hit
            invariant
                n == s@.len(),
                m == sub@.len(),
                at + m <= n,
                0 <= j <= m,
                hit ==> forall|q: int| 0 <= q < j ==> s@[at + q] == sub@[q],
                !hit ==> 0 <= jw < m && s@[at + jw] != sub@[jw],
            decreases m - j + (if hit { 1int } else { 0int }),
        {
            if s.get_char(at + j) != sub.get_char(j) {
                proof {
                    jw = j as int;
                }
                hit = false;
            } else {
                j += 1;
            }
        }
        if hit {
            proof {
                assert(s@.subrange(at as int, at + m as int) =~= sub@);
            }
            return Some(at);
        }
        proof {
            assert(s@.subrange(at as int, at + m as int)[jw] != sub@[jw]);
            assert(!occurs_at(s@, sub@, at as int));
        }
        at += 1;
    }
    proof {
        assert forall|p: int| p >= from implies !occurs_at(s@, sub@, p) by {
            if p + m <= n && p >= from {
                assert(p < at);
            }
        }
    }
    None
}

/// Whether `sub` occurs anywhere in `s`.
pub fn contains_sub(s: &str, sub: &str) -> (r: bool)
    ensures
        r == occurs_from(s@, sub@, 0),
{
    match find_from(s, sub, 0) {
        Some(at) => {
            proof {
                assert(occurs_at(s@, sub@, at as int));
            }
            true
        },
        None => {
            proof {
                assert(forall|p: int| p >= 0 ==> !occurs_at(s@, sub@, p));
            }
            false
        },
    }
}

/// The first position at or after `from` where `sub` occurs in `s`,
/// defined by scanning forward.
pub open spec fn find_rec(s: Seq<char>, sub: Seq<char>, from: int) -> Option<int>
    decreases s.len() - from + 1,
{
    if from < 0 || from + sub.len() > s.len() {
        None
    } else if occurs_at(s, sub, from) {
        Some(from)
    } else {
        find_rec(s, sub, from + 1)
    }
}

/// When nothing occurs at or after `from`, the scan finds nothing.
pub proof fn lemma_find_rec_none(s: Seq<char>, sub: Seq<char>, from: int)
    requires
        forall|p: int| p >= from ==> !occurs_at(s, sub, p),
    ensures
        find_rec(s, sub, from) is None,
    decreases s.len() - from + 1,
{
    if !(from < 0 || from + sub.len() > s.len()) {
        assert(!occurs_at(s, sub, from));
        lemma_find_rec_none(s, sub, from + 1);
    }
}

/// When `at` is the first occurrence at or after `from`, the scan finds it.
pub proof fn lemma_find_rec_some(s: Seq<char>, sub: Seq<char>, from: int, at: int)
    requires
        0 <= from <= at,
        occurs_at(s, sub, at),
        forall|p: int| from <= p < at ==> !occurs_at(s, sub, p),
    ensures
        find_rec(s, sub, from) == Some(at),
    decreases at - from,
{
    if from == at {
    } else {
        assert(!occurs_at(s, sub, from));
        lemma_find_rec_some(s, sub, from + 1, at);
    }
}

/// A found position lies at or after the start and leaves room for the
/// pattern.
pub proof fn lemma_find_rec_bounds(s: Seq<char>, sub: Seq<char>, from: int)
    requires
        find_rec(s, sub, from) is Some,
    ensures
        from <= find_rec(s, sub, from)->0,
        find_rec(s, sub, from)->0 + sub.len() <= s.len(),
    decreases s.len() - from + 1,
{
    if !(from < 0 || from + sub.len() > s.len()) {
        if !occurs_at(s, sub, from) {
            lemma_find_rec_bounds(s, sub, from + 1);
        }
    }
}

/// The newline count before position `upto`.
pub open spec fn newlines_before(s: Seq<char>, upto: int) -> int {
    s.take(upto).filter(|c: char| c == '\n').len() as int
}

/// Counts the newlines before `upto`.
pub fn count_newlines_upto(s: &str, upto: usize) -> (r: usize)
    requires
        upto <= s@.len(),
    ensures
        r as int == newlines_before(s@, upto as int),
{
    let mut r: usize = 0;
    let mut i: usize = 0;
    proof {
        assert(s@.take(0) =~= Seq::<char>::empty());
        reveal_with_fuel(Seq::<char>::filter, 1);
    }
    while i < upto
        invariant
            0 <= i <= upto <= s@.len(),
            r as int == s@.take(i as int).filter(|c: char| c == '\n').len(),
            r <= i,
        decreases upto - i,
    {
        let c = s.get_char(i);
        proof {
            crate::seq_util::lemma_filter_take_step(s@, i as int, |c2: char| c2 == '\n');
        }
        if c == '\n' {
            r += 1;
        }
        i += 1;
    }
    r
}

/// Relies on String::push: appends one character to the string.
#[verifier::external_body]
pub fn push_char(s: &mut String, c: char)
    ensures
        final(s)@ == old(s)@.push(c),
{
    s.push(c);
}

/// The ASCII upper-case counterpart of a character; everything but a
/// lower-case ASCII letter is kept.
pub open spec fn ascii_upper(c: char) -> char {
    match c {
        'a' => 'A',
        'b' => 'B',
        'c' => 'C',
        'd' => 'D',
        'e' => 'E',
        'f' => 'F',
        'g' => 'G',
        'h' => 'H',
        'i' => 'I',
        'j' => 'J',
        'k' => 'K',
        'l' => 'L',
        'm' => 'M',
        'n' => 'N',
        'o' => 'O',
        'p' => 'P',
        'q' => 'Q',
        'r' => 'R',
        's' => 'S',
        't' => 'T',
        'u' => 'U',
        'v' => 'V',
        'w' => 'W',
        'x' => 'X',
        'y' => 'Y',
        'z' => 'Z',
        _ => c,
    }
}

/// The ASCII lower-case counterpart of a character; everything but an
/// upper-case ASCII letter is kept.
pub open spec fn ascii_lower(c: char) -> char {
    match c {
        'A' => 'a',
        'B' => 'b',
        'C' => 'c',
        'D' => 'd',
        'E' => 'e',
        'F' => 'f',
        'G' => 'g',
        'H' => 'h',
        'I' => 'i',
        'J' => 'j',
        'K' => 'k',
        'L' => 'l',
        'M' => 'm',
        'N' => 'n',
        'O' => 'o',
        'P' => 'p',
        'Q' => 'q',
        'R' => 'r',
        'S' => 's',
        'T' => 't',
        'U' => 'u',
        'V' => 'v',
        'W' => 'w',
        'X' => 'x',
        'Y' => 'y',
        'Z' => 'z',
        _ => c,
    }
}

/// Whether a character is an upper-case ASCII letter.
pub open spec fn is_ascii_upper(c: char) -> bool {
    ascii_lower(c) != c
}

/// Upper-cases one ASCII letter.
pub fn to_ascii_upper(c: char) -> (r: char)
    ensures
        r == ascii_upper(c),
{
    match c {
        'a' => 'A',
        'b' => 'B',
        'c' => 'C',
        'd' => 'D',
        'e' => 'E',
        'f' => 'F',
        'g' => 'G',
        'h' => 'H',
        'i' => 'I',
        'j' => 'J',
        'k' => 'K',
        'l' => 'L',
        'm' => 'M',
        'n' => 'N',
        'o' => 'O',
        'p' => 'P',
        'q' => 'Q',
        'r' => 'R',
        's' => 'S',
        't' => 'T',
        'u' => 'U',
        'v' => 'V',
        'w' => 'W',
        'x' => 'X',
        'y' => 'Y',
        'z' => 'Z',
        _ => c,
    }
}

/// Lower-cases one ASCII letter.
pub fn to_ascii_lower(c: char) -> (r: char)
    ensures
        r == ascii_lower(c),
{
    match c {
        'A' => 'a',
        'B' => 'b',
        'C' => 'c',
        'D' => 'd',
        'E' => 'e',
        'F' => 'f',
        'G' => 'g',
        'H' => 'h',
        'I' => 'i',
        'J' => 'j',
        'K' => 'k',
        'L' => 'l',
        'M' => 'm',
        'N' => 'n',
        'O' => 'o',
        'P' => 'p',
        'Q' => 'q',
        'R' => 'r',
        'S' => 's',
        'T' => 't',
        'U' => 'u',
        'V' => 'v',
        'W' => 'w',
        'X' => 'x',
        'Y' => 'y',
        'Z' => 'z',
        _ => c,
    }
}

/// The characters of `s`, folded to lower case by the running process's
/// Unicode tables.
pub uninterp spec fn lower_of(s: Seq<char>) -> Seq<char>;

/// Relies on str::to_lowercase: the result depends on the characters
/// alone, and an empty string stays empty.
#[verifier::external_body]
pub fn lowercase(s: &str) -> (r: String)
    ensures
        r@ == lower_of(s@),
        s@.len() == 0 ==> r@.len() == 0,
{
    s.to_lowercase()
}

/// Whether `s` starts with the characters of `sub`.
pub fn starts_with_sub(s: &str, sub: &str) -> (r: bool)
    ensures
        r == occurs_at(s@, sub@, 0),
{
    let m = sub.unicode_len();
    if m > s.unicode_len() {
        return false;
    }
    let head = s.substring_char(0, m);
    let r = str_eq(head, sub);
    proof {
        assert(s@.subrange(0, m as int) == head@);
    }
    r
}

/// Concatenates two pieces of text.
pub fn concat2(a: &str, b: &str) -> (r: String)
    ensures
        r@ == a@ + b@,
{
    let mut s = a.to_owned();
    s.append(b);
    s
}

/// Concatenates three pieces of text.
pub fn concat3(a: &str, b: &str, c: &str) -> (r: String)
    ensures
        r@ == a@ + b@ + c@,
{
    let mut s = a.to_owned();
    s.append(b);
    s.append(c);
    s
}

/// Concatenates five pieces of text.
pub fn concat5(a: &str, b: &str, c: &str, d: &str, e: &str) -> (r: String)
    ensures
        r@ == a@ + b@ + c@ + d@ + e@,
{
    let mut s = a.to_owned();
    s.append(b);
    s.append(c);
    s.append(d);
    s.append(e);
    s
}

} // verus!
