//! Combining two adjacent rendered fragments across the gap between them,
//! reinserting any comments found in that gap.

use vstd::prelude::*;
use crate::bytes::{
    break_indent, copy_bytes, push_break_indent, push_bytes, SPACE,
};
use crate::scan::{gap_comments, scan_gap};
use crate::shape::{fits, fits_joined, Shape, WidthBudget};
use crate::source::SnippetProvider;
use crate::span::Span;

verus! {

/// The gap between two fragments held content that is neither whitespace
/// nor a recognizable comment, so the two sides could not be merged.
#[derive(Clone, Copy, Debug, PartialEq, Eq, Structural)]
pub struct CommentMergeError;

/// The comments of a gap laid out one per line: before each comment a line
/// break and `ind` spaces of indentation.
pub open spec fn comments_block(cs: Seq<Seq<u8>>, ind: int) -> Seq<u8>
    decreases cs.len(),
{
    if cs.len() == 0 {
        Seq::empty()
    } else {
        comments_block(cs.drop_last(), ind) + break_indent(ind) + cs.last()
    }
}

/// What combining `left` and `right` across a gap with text `gap` yields:
/// nothing when the gap cannot be classified; a single-line join when the
/// gap is pure whitespace, the caller prefers one line and the width
/// budget allows it; a two-line join when it does not; and, when the gap
/// holds comments, a multi-line join with every comment reproduced
/// verbatim on its own line, in source order, between the two sides.
pub open spec fn spec_combine(
    left: Seq<u8>,
    right: Seq<u8>,
    gap: Seq<u8>,
    width: WidthBudget,
    ind: int,
    prefer_single_line: bool,
) -> Option<Seq<u8>> {
    match gap_comments(gap) {
        None => None::<Seq<u8>>,
        Some(cs) => Some(
            if cs.len() == 0 {
                if prefer_single_line && fits(left.len() + 1 + right.len() as int, width) {
                    left + seq![SPACE] + right
                } else {
                    left + break_indent(ind) + right
                }
            } else {
                left + comments_block(cs, ind) + break_indent(ind) + right
            },
        ),
    }
}

/// Where comment `i` of the gap begins in the merged text.
pub open spec fn comment_start(left: Seq<u8>, cs: Seq<Seq<u8>>, ind: int, i: int) -> int {
    left.len() + comments_block(cs.take(i + 1), ind).len() - cs[i].len()
}

/// The block of the first `k` comments is a prefix of the whole block.
proof fn lemma_cb_prefix(cs: Seq<Seq<u8>>, ind: int, k: int)
    requires
        0 <= k <= cs.len(),
    ensures
        comments_block(cs.take(k), ind).len() <= comments_block(cs, ind).len(),
        comments_block(cs, ind).subrange(
            0,
            comments_block(cs.take(k), ind).len() as int,
        ) == comments_block(cs.take(k), ind),
    decreases cs.len(),
{
    if k == cs.len() {
        assert(cs.take(k) =~= cs);
        assert(comments_block(cs, ind).subrange(
            0,
            comments_block(cs, ind).len() as int,
        ) =~= comments_block(cs, ind));
    } else {
        let dl = cs.drop_last();
        assert(dl.take(k) =~= cs.take(k));
        lemma_cb_prefix(dl, ind, k);
        assert(comments_block(cs, ind).subrange(
            0,
            comments_block(dl, ind).len() as int,
        ) =~= comments_block(dl, ind));
        crate::bytes::lemma_prefix_subrange(
            comments_block(dl, ind),
            comments_block(cs, ind),
            0,
            comments_block(cs.take(k), ind).len() as int,
        );
    }
}

/// No information loss, order preserved: when a gap's comments were
/// recognized, the merged text holds each of them verbatim, in source
/// order — comment `i` beginning at `comment_start(.., i)`, strictly
/// after `left` and after the end of comment `i - 1`, and ending before
/// `right` begins.
pub proof fn lemma_combine_preserves_comments(
    left: Seq<u8>,
    right: Seq<u8>,
    gap: Seq<u8>,
    width: WidthBudget,
    ind: int,
    prefer_single_line: bool,
    i: int,
)
    requires
        ind >= 0,
        gap_comments(gap) is Some,
        0 <= i < gap_comments(gap).unwrap().len(),
    ensures
        spec_combine(left, right, gap, width, ind, prefer_single_line) is Some,
        ({
            let cs = gap_comments(gap).unwrap();
            let r = spec_combine(left, right, gap, width, ind, prefer_single_line).unwrap();
            let st = comment_start(left, cs, ind, i);
            &&& left.len() < st
            &&& st + cs[i].len() + 1 + right.len() <= r.len()
            &&& r.subrange(st, st + cs[i].len()) == cs[i]
            &&& (i > 0 ==> comment_start(left, cs, ind, i - 1) + cs[i - 1].len() < st)
        }),
{
    let cs = gap_comments(gap).unwrap();
    let r = spec_combine(left, right, gap, width, ind, prefer_single_line).unwrap();
    let st = comment_start(left, cs, ind, i);
    let l = cs[i].len() as int;
    crate::bytes::lemma_spaces_len(ind);
    assert(cs.take(i + 1).drop_last() =~= cs.take(i));
    assert(cs.take(i + 1).last() == cs[i]);
    assert(comments_block(cs.take(i + 1), ind) == comments_block(cs.take(i), ind)
        + break_indent(ind) + cs[i]);
    lemma_cb_prefix(cs, ind, i + 1);
    assert(r == left + comments_block(cs, ind) + break_indent(ind) + right);
    let b = left + comments_block(cs.take(i + 1), ind);
    assert(r.subrange(0, b.len() as int) =~= b) by {
        assert forall|k: int| 0 <= k < b.len() implies #[trigger] r[k] == b[k] by {
            if left.len() <= k {
                assert(comments_block(cs, ind).subrange(
                    0,
                    comments_block(cs.take(i + 1), ind).len() as int,
                )[k - left.len()] == comments_block(cs.take(i + 1), ind)[k - left.len()]);
            }
        }
    }
    crate::bytes::lemma_prefix_subrange(b, r, st, l);
    assert(b.subrange(st, st + l) =~= cs[i]);
}

/// Merges `left` and `right` across the gap span `gap`, reinserting any
/// comments the gap holds; fails when the gap cannot be classified, and
/// the caller must then fall back to a plain join.
pub fn combine(
    provider: &SnippetProvider,
    left: &Vec<u8>,
    right: &Vec<u8>,
    gap: Span,
    shape: Shape,
    prefer_single_line: bool,
) -> (r: Result<Vec<u8>, CommentMergeError>)
    requires
        gap.in_buf(provider.contents().len() as int),
    ensures
        ({
            let g = provider.contents().subrange(gap.lo as int, gap.hi as int);
            let merged = spec_combine(
                left@,
                right@,
                g,
                shape.width,
                shape.indent as int,
                prefer_single_line,
            );
            match r {
                Ok(v) => merged == Some(v@),
                Err(_) => merged is None,
            }
        }),
{
    let gap_text = provider.text_of(gap);
    match scan_gap(&gap_text) {
        None => Err(CommentMergeError),
        Some(cs) => {
            let ghost all = cs.deep_view();
            let mut out = copy_bytes(left);
            if cs.len() == 0 {
                if prefer_single_line && fits_joined(left.len(), right.len(), shape.width) {
                    out.push(SPACE);
                    push_bytes(&mut out, right);
                    proof {
                        assert(out@ =~= left@ + seq![SPACE] + right@);
                    }
                } else {
                    push_break_indent(&mut out, shape.indent);
                    push_bytes(&mut out, right);
                    proof {
                        assert(out@ =~= left@ + break_indent(shape.indent as int) + right@);
                    }
                }
            } else {
                let mut i: usize = 0;
                while i < cs.len()
                    invariant
                        i <= cs.len(),
                        all == cs.deep_view(),
                        out@ == left@ + comments_block(all.take(i as int), shape.indent as int),
                    decreases cs.len() - i,
                {
                    push_break_indent(&mut out, shape.indent);
                    push_bytes(&mut out, &cs[i]);
                    i = i + 1;
                    proof {
                        assert(all.take(i as int).drop_last() =~= all.take(i - 1));
                        assert(all.take(i as int).last() =~= cs@[i - 1]@);
                        assert(out@ =~= left@ + comments_block(
                            all.take(i as int),
                            shape.indent as int,
                        ));
                    }
                }
                proof {
                    assert(all.take(cs@.len() as int) =~= all);
                }
                push_break_indent(&mut out, shape.indent);
                push_bytes(&mut out, right);
                proof {
                    assert(out@ =~= left@ + comments_block(all, shape.indent as int)
                        + break_indent(shape.indent as int) + right@);
                }
            }
            Ok(out)
        },
    }
}

} // verus!
