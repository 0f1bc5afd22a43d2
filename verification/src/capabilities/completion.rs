//! Completion text arithmetic: translating an editor column, counted in
//! UTF-16 code units, into a byte index of the UTF-8 line.

use vstd::prelude::*;
use vstd::string::StrSliceExecFns;
use vstd::string::StringSliceAdditionalSpecFns;
use vstd::utf8::{encode_scalar, encode_utf8};

verus! {

/// How many UTF-16 code units a character occupies.
pub open spec fn utf16_len_spec(c: char) -> int {
    if (c as u32) >= 0x10000 {
        2
    } else {
        1
    }
}

/// How many UTF-8 bytes a character occupies.
pub open spec fn utf8_len_spec(c: char) -> int {
    encode_scalar(c as u32).len() as int
}

/// The UTF-8 byte count of a character sequence.
pub open spec fn utf8_sum(s: Seq<char>) -> int
    decreases s.len(),
{
    if s.len() == 0 {
        0int
    } else {
        utf8_len_spec(s[0]) + utf8_sum(s.drop_first())
    }
}

/// The byte index that a UTF-16 column addresses: the byte offset of
/// the character at which the running UTF-16 count reaches the column;
/// a column past the end of the line, or one that falls inside a
/// surrogate pair, addresses the end of the line.
pub open spec fn byte_index_spec(s: Seq<char>, character: int) -> int
    decreases s.len(),
{
    if character <= 0 && s.len() == 0 {
        0int
    } else if character <= 0 {
        0int
    } else if s.len() == 0 {
        0int
    } else if utf16_len_spec(s[0]) > character {
        utf8_sum(s)
    } else {
        utf8_len_spec(s[0]) + byte_index_spec(s.drop_first(), character - utf16_len_spec(s[0]))
    }
}

/// The byte count of a sequence is the length of its UTF-8 encoding.
pub proof fn lemma_utf8_sum_is_encoding_len(s: Seq<char>)
    ensures
        utf8_sum(s) == encode_utf8(s).len(),
    decreases s.len(),
{
    if s.len() > 0 {
        lemma_utf8_sum_is_encoding_len(s.drop_first());
    }
}

/// A byte count is never negative.
proof fn lemma_utf8_sum_nonneg(s: Seq<char>)
    ensures
        utf8_sum(s) >= 0,
    decreases s.len(),
{
    if s.len() > 0 {
        lemma_utf8_sum_nonneg(s.drop_first());
    }
}

/// Byte counts of prefixes never pass the whole.
proof fn lemma_utf8_sum_split(s: Seq<char>, i: int)
    requires
        0 <= i <= s.len(),
    ensures
        utf8_sum(s) == utf8_sum(s.take(i)) + utf8_sum(s.skip(i)),
    decreases i,
{
    if i == 0 {
        assert(s.take(0) =~= Seq::<char>::empty());
        assert(s.skip(0) =~= s);
    } else {
        assert(s.take(i)[0] == s[0]);
        assert(s.take(i).drop_first() =~= s.drop_first().take(i - 1));
        assert(s.skip(i) =~= s.drop_first().skip(i - 1));
        lemma_utf8_sum_split(s.drop_first(), i - 1);
    }
}

/// A character's UTF-8 width, from its scalar value.
fn char_utf8_len(c: char) -> (r: usize)
    ensures
        r as int == utf8_len_spec(c),
{
    let u = c as u32;
    if u < 0x80 {
        1
    } else if u < 0x800 {
        2
    } else if u < 0x10000 {
        3
    } else {
        4
    }
}

/// A character's UTF-16 width, from its scalar value.
fn char_utf16_len(c: char) -> (r: usize)
    ensures
        r as int == utf16_len_spec(c),
{
    if (c as u32) >= 0x10000 {
        2
    } else {
        1
    }
}

/// Translates an editor column, counted in UTF-16 code units, into the
/// byte index it addresses in the UTF-8 form of the line.
pub fn lsp_character_to_byte_index(line: &str, character: usize) -> (r: usize)
    ensures
        r as int == byte_index_spec(line@, character as int),
{
    let total = line.as_bytes().len();
    proof {
        lemma_utf8_sum_is_encoding_len(line@);
        assert(line.spec_bytes() == encode_utf8(line@));
        assert(total as int == utf8_sum(line@));
    }
    let n = line.unicode_len();
    let mut i: usize = 0;
    let mut cc: usize = 0;
    let mut bi: usize = 0;
    let mut over = false;
    proof {
        assert(line@.skip(0) =~= line@);
        assert(line@.take(0) =~= Seq::<char>::empty());
    }
    while i < n
        invariant
            n == line@.len(),
            0 <= i <= n,
            bi as int == utf8_sum(line@.take(i as int)),
            utf8_sum(line@) == total as int,
            !over ==> cc <= character && byte_index_spec(line@, character as int) == bi as int
                + byte_index_spec(line@.skip(i as int), character as int - cc as int),
            over ==> byte_index_spec(line@, character as int) == bi as int + utf8_sum(
                line@.skip(i as int),
            ),
        decreases n - i,
    {
        let c = line.get_char(i);
        proof {
            assert(line@.skip(i as int)[0] == line@[i as int]);
            assert(line@.skip(i as int).drop_first() =~= line@.skip(i + 1));
            assert(line@.take(i + 1) =~= line@.take(i as int).push(line@[i as int]));
            assert(line@.take(i + 1).drop_last() =~= line@.take(i as int));
            lemma_utf8_sum_last(line@.take(i + 1));
            lemma_utf8_sum_split(line@, i as int);
            lemma_utf8_sum_nonneg(line@.skip(i + 1));
        }
        if !over && cc == character {
            return bi;
        }
        let w16 = char_utf16_len(c);
        let w8 = char_utf8_len(c);
        if !over {
            if w16 > character - cc {
                over = true;
            } else {
                cc += w16;
            }
        }
        bi += w8;
        i += 1;
    }
    proof {
        assert(line@.skip(n as int).len() == 0);
        assert(line@.take(n as int) =~= line@);
    }
    bi
}

/// Peeling the last character off a byte count.
proof fn lemma_utf8_sum_last(s: Seq<char>)
    requires
        s.len() > 0,
    ensures
        utf8_sum(s) == utf8_sum(s.drop_last()) + utf8_len_spec(s.last()),
    decreases s.len(),
{
    if s.len() == 1 {
        assert(s.drop_last() =~= Seq::<char>::empty());
        assert(s.drop_first() =~= Seq::<char>::empty());
    } else {
        assert(s.drop_first().drop_last() =~= s.drop_last().drop_first());
        assert(s.drop_last()[0] == s[0]);
        assert(s.drop_first().last() == s.last());
        lemma_utf8_sum_last(s.drop_first());
    }
}

} // verus!
