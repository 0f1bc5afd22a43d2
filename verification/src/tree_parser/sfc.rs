//! Script-region isolation for embedded-script document formats: each
//! region between a `<script ...>` opening tag and its `</script>`
//! closing tag is extracted together with its zero-based starting line,
//! so ranges produced from the region can be mapped back onto the
//! document.

use crate::text::{
    count_newlines_upto, find_from, find_rec, lemma_find_rec_bounds, lemma_find_rec_none,
    lemma_find_rec_some, newlines_before,
};
use vstd::prelude::*;
use vstd::string::StrSliceExecFns;

verus! {

/// The script regions of a document, in order: for each `<script`
/// opening whose tag closes and whose `</script>` follows, the text in
/// between and the newline count before it.
pub open spec fn script_blocks_from(s: Seq<char>, from: int) -> Seq<(Seq<char>, int)>
    decreases s.len() - from,
    via script_blocks_from_decreases
{
    if from < 0 {
        Seq::empty()
    } else {
        match find_rec(s, "<script"@, from) {
            None => Seq::empty(),
            Some(tag) => match find_rec(s, ">"@, tag) {
                None => Seq::empty(),
                Some(gt) => match find_rec(s, "</script>"@, gt + 1) {
                    None => Seq::empty(),
                    Some(close) => seq![(s.subrange(gt + 1, close), newlines_before(s, gt + 1))]
                        + script_blocks_from(s, close + 9),
                },
            },
        }
    }
}

#[via_fn]
proof fn script_blocks_from_decreases(s: Seq<char>, from: int) {
    if from >= 0 {
        if let Some(tag) = find_rec(s, "<script"@, from) {
            lemma_find_rec_bounds(s, "<script"@, from);
            if let Some(gt) = find_rec(s, ">"@, tag) {
                lemma_find_rec_bounds(s, ">"@, tag);
                if let Some(close) = find_rec(s, "</script>"@, gt + 1) {
                    lemma_find_rec_bounds(s, "</script>"@, gt + 1);
                    reveal_strlit("</script>");
                    reveal_strlit("<script");
                    reveal_strlit(">");
                }
            }
        }
    }
}

/// The contents of an extracted block list.
pub open spec fn blocks_v(v: Seq<(String, usize)>) -> Seq<(Seq<char>, int)> {
    v.map_values(|b: (String, usize)| (b.0@, b.1 as int))
}

/// Extracts every script region of an embedded-script document, each
/// with the zero-based line its text starts on.
pub fn extract_script_blocks(content: &str) -> (r: Vec<(String, usize)>)
    ensures
        blocks_v(r@) == script_blocks_from(content@, 0),
{
    let mut out: Vec<(String, usize)> = Vec::new();
    let mut pos: usize = 0;
    let n = content.unicode_len();
    proof {
        assert(blocks_v(out@) =~= Seq::<(Seq<char>, int)>::empty());
        assert(blocks_v(out@) + script_blocks_from(content@, 0) =~= script_blocks_from(
            content@,
            0,
        ));
    }
    loop
        invariant
            n == content@.len(),
            0 <= pos <= n,
            script_blocks_from(content@, 0) == blocks_v(out@) + script_blocks_from(
                content@,
                pos as int,
            ),
        decreases n - pos,
    {
        let tag = match find_from(content, "<script", pos) {
            Some(t) => t,
            None => {
                proof {
                    lemma_find_rec_none(content@, "<script"@, pos as int);
                    assert(script_blocks_from(content@, pos as int) =~= Seq::<
                        (Seq<char>, int),
                    >::empty());
                    assert(blocks_v(out@) + Seq::<(Seq<char>, int)>::empty() =~= blocks_v(out@));
                }
                return out;
            },
        };
        proof {
            lemma_find_rec_some(content@, "<script"@, pos as int, tag as int);
        }
        let gt = match find_from(content, ">", tag) {
            Some(g) => g,
            None => {
                proof {
                    lemma_find_rec_none(content@, ">"@, tag as int);
                    assert(script_blocks_from(content@, pos as int) =~= Seq::<
                        (Seq<char>, int),
                    >::empty());
                    assert(blocks_v(out@) + Seq::<(Seq<char>, int)>::empty() =~= blocks_v(out@));
                }
                return out;
            },
        };
        proof {
            lemma_find_rec_some(content@, ">"@, tag as int, gt as int);
            reveal_strlit(">");
        }
        let open_end = gt + 1;
        let close = match find_from(content, "</script>", open_end) {
            Some(c) => c,
            None => {
                proof {
                    lemma_find_rec_none(content@, "</script>"@, open_end as int);
                    assert(script_blocks_from(content@, pos as int) =~= Seq::<
                        (Seq<char>, int),
                    >::empty());
                    assert(blocks_v(out@) + Seq::<(Seq<char>, int)>::empty() =~= blocks_v(out@));
                }
                return out;
            },
        };
        proof {
            lemma_find_rec_some(content@, "</script>"@, open_end as int, close as int);
            reveal_strlit("</script>");
        }
        let text = content.substring_char(open_end, close);
        let line_off = count_newlines_upto(content, open_end);
        let ghost prevout = out@;
        out.push((text.to_owned(), line_off));
        proof {
            let b = out@[out@.len() - 1];
            assert(b.0@ == content@.subrange(open_end as int, close as int));
            assert(b.1 as int == newlines_before(content@, open_end as int));
            assert(blocks_v(out@) =~= blocks_v(prevout).push((b.0@, b.1 as int)));
            assert(script_blocks_from(content@, pos as int) == seq![
                (content@.subrange(open_end as int, close as int), newlines_before(
                    content@,
                    open_end as int,
                )),
            ] + script_blocks_from(content@, close + 9));
            assert(blocks_v(out@) + script_blocks_from(content@, close + 9)
                =~= blocks_v(prevout) + script_blocks_from(content@, pos as int));
        }
        pos = close + 9;
    }
}

/// The first script region of a document, if any: the single-region
/// view used for one-script component formats.
pub fn extract_vue_script(content: &str) -> (r: Option<(String, usize)>)
    ensures
        match r {
            Some(b) => script_blocks_from(content@, 0).len() > 0 && (b.0@, b.1 as int)
                == script_blocks_from(content@, 0)[0],
            None => script_blocks_from(content@, 0).len() == 0,
        },
{
    first_block(content)
}

/// The first script region of a document, if any.
pub fn extract_svelte_script(content: &str) -> (r: Option<(String, usize)>)
    ensures
        match r {
            Some(b) => script_blocks_from(content@, 0).len() > 0 && (b.0@, b.1 as int)
                == script_blocks_from(content@, 0)[0],
            None => script_blocks_from(content@, 0).len() == 0,
        },
{
    first_block(content)
}

/// The first extracted block.
fn first_block(content: &str) -> (r: Option<(String, usize)>)
    ensures
        match r {
            Some(b) => script_blocks_from(content@, 0).len() > 0 && (b.0@, b.1 as int)
                == script_blocks_from(content@, 0)[0],
            None => script_blocks_from(content@, 0).len() == 0,
        },
{
    let mut blocks = extract_script_blocks(content);
    let ghost bv = blocks@;
    if blocks.len() > 0 {
        let b = blocks.remove(0);
        proof {
            assert((b.0@, b.1 as int) == blocks_v(bv)[0]);
        }
        Some(b)
    } else {
        None
    }
}

} // verus!
