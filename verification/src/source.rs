//! Read-only lookup over the original source buffer: raw text for a span,
//! and the position of a known keyword inside a larger span.

use vstd::prelude::*;
use crate::bytes::{matches_at, subvec};
use crate::scan::{
    block_end, lemma_block_end_bounds, lemma_line_end_bounds, line_end, SLASH, STAR,
};
use crate::span::Span;

verus! {

/// The position of the first occurrence of `pat` at or after `i` that does
/// not start inside a comment, or nothing when there is none or a block
/// comment never closes.
pub open spec fn find_uncommented(s: Seq<u8>, pat: Seq<u8>, i: int) -> Option<int>
    decreases s.len() - i when 0 <= i <= s.len() && 1 <= pat.len()
{
    if i + pat.len() > s.len() {
        None::<int>
    } else if s.subrange(i, i + pat.len()) == pat {
        Some(i)
    } else if s[i] == SLASH && i + 1 < s.len() && s[i + 1] == SLASH {
        proof {
            lemma_line_end_bounds(s, i + 1);
        }
        find_uncommented(s, pat, line_end(s, i))
    } else if s[i] == SLASH && i + 1 < s.len() && s[i + 1] == STAR {
        match block_end(s, i + 2) {
            Some(e) => {
                proof {
                    lemma_block_end_bounds(s, i + 2);
                }
                find_uncommented(s, pat, e)
            },
            None => None,
        }
    } else {
        find_uncommented(s, pat, i + 1)
    }
}

pub proof fn lemma_find_uncommented_bounds(s: Seq<u8>, pat: Seq<u8>, i: int)
    requires
        0 <= i <= s.len(),
        1 <= pat.len(),
        find_uncommented(s, pat, i) is Some,
    ensures
        i <= find_uncommented(s, pat, i).unwrap(),
        find_uncommented(s, pat, i).unwrap() + pat.len() <= s.len(),
    decreases s.len() - i,
{
    if i + pat.len() > s.len() {
    } else if s.subrange(i, i + pat.len()) == pat {
    } else if s[i] == SLASH && i + 1 < s.len() && s[i + 1] == SLASH {
        lemma_line_end_bounds(s, i + 1);
        lemma_find_uncommented_bounds(s, pat, line_end(s, i));
    } else if s[i] == SLASH && i + 1 < s.len() && s[i + 1] == STAR {
        lemma_block_end_bounds(s, i + 2);
        lemma_find_uncommented_bounds(s, pat, block_end(s, i + 2).unwrap());
    } else {
        lemma_find_uncommented_bounds(s, pat, i + 1);
    }
}

/// Searches `s` from position `i` for `pat`, skipping over comments.
pub fn search_uncommented(s: &Vec<u8>, pat: &Vec<u8>, i: usize) -> (r: Option<usize>)
    requires
        i <= s.len(),
        1 <= pat.len(),
    ensures
        match r {
            Some(j) => find_uncommented(s@, pat@, i as int) == Some(j as int),
            None => find_uncommented(s@, pat@, i as int) is None,
        },
    decreases s.len() - i,
{
    if s.len() - i < pat.len() {
        None
    } else if matches_at(s, i, pat) {
        Some(i)
    } else if s[i] == SLASH && i + 1 < s.len() && s[i + 1] == SLASH {
        let e = crate::scan::find_line_end(s, i);
        proof {
            lemma_line_end_bounds(s@, i + 1);
        }
        search_uncommented(s, pat, e)
    } else if s[i] == SLASH && i + 1 < s.len() && s[i + 1] == STAR {
        match crate::scan::find_block_end(s, i + 2) {
            Some(e) => {
                proof {
                    lemma_block_end_bounds(s@, i + 2);
                }
                search_uncommented(s, pat, e)
            },
            None => None,
        }
    } else {
        search_uncommented(s, pat, i + 1)
    }
}

/// An already-loaded, read-only view of the original source text.
pub struct SnippetProvider {
    src: Vec<u8>,
}

impl SnippetProvider {
    /// The bytes of the original source.
    pub closed spec fn contents(&self) -> Seq<u8> {
        self.src@
    }

    pub fn new(src: Vec<u8>) -> (p: SnippetProvider)
        ensures
            p.contents() == src@,
    {
        SnippetProvider { src }
    }

    pub fn len(&self) -> (n: usize)
        ensures
            n == self.contents().len(),
    {
        self.src.len()
    }

    /// The raw original-source substring covered by `span`.
    pub fn text_of(&self, span: Span) -> (r: Vec<u8>)
        requires
            span.in_buf(self.contents().len() as int),
        ensures
            r@ == self.contents().subrange(span.lo as int, span.hi as int),
    {
        subvec(&self.src, span.lo, span.hi)
    }

    /// The byte offset, in the whole buffer, of the first occurrence of
    /// `keyword` inside `span` that does not start inside a comment.
    pub fn span_before(&self, span: Span, keyword: &Vec<u8>) -> (r: Option<usize>)
        requires
            span.in_buf(self.contents().len() as int),
            1 <= keyword.len(),
        ensures
            ({
                let t = self.contents().subrange(span.lo as int, span.hi as int);
                match r {
                    Some(p) => find_uncommented(t, keyword@, 0) == Some(p - span.lo)
                        && span.lo <= p && p + keyword@.len() <= span.hi,
                    None => find_uncommented(t, keyword@, 0) is None,
                }
            }),
    {
        let text = self.text_of(span);
        match search_uncommented(&text, keyword, 0) {
            Some(j) => {
                proof {
                    lemma_find_uncommented_bounds(text@, keyword@, 0);
                }
                Some(span.lo + j)
            },
            None => None,
        }
    }
}

} // verus!
