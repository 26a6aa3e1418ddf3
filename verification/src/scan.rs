//! The comment-token recognizer: decides whether a raw gap substring is a
//! run of whitespace, a line comment, or a block comment, and decomposes a
//! whole gap into its sequence of comments.

use vstd::prelude::*;
use crate::bytes::NEWLINE;

verus! {

pub const SLASH: u8 = 47;
pub const STAR: u8 = 42;

pub open spec fn is_ws(c: u8) -> bool {
    c == 32 || c == 9 || c == 10 || c == 13
}

/// The index of the first line break at or after `i`, or the end of the
/// buffer when the last line is unterminated.
pub open spec fn line_end(s: Seq<u8>, i: int) -> int
    decreases s.len() - i when 0 <= i <= s.len()
{
    if i == s.len() {
        i
    } else if s[i] == NEWLINE {
        i
    } else {
        line_end(s, i + 1)
    }
}

pub proof fn lemma_line_end_bounds(s: Seq<u8>, i: int)
    requires
        0 <= i <= s.len(),
    ensures
        i <= line_end(s, i) <= s.len(),
    decreases s.len() - i,
{
    if i < s.len() && s[i] != NEWLINE {
        lemma_line_end_bounds(s, i + 1);
    }
}

/// The index just past the first `*/` at or after `i`, or nothing when the
/// block comment never closes.
pub open spec fn block_end(s: Seq<u8>, i: int) -> Option<int>
    decreases s.len() - i when 0 <= i <= s.len()
{
    if i + 2 > s.len() {
        None::<int>
    } else if s[i] == STAR && s[i + 1] == SLASH {
        Some(i + 2)
    } else {
        block_end(s, i + 1)
    }
}

pub proof fn lemma_block_end_bounds(s: Seq<u8>, i: int)
    requires
        0 <= i <= s.len(),
        block_end(s, i) is Some,
    ensures
        i + 2 <= block_end(s, i).unwrap() <= s.len(),
    decreases s.len() - i,
{
    if i + 2 <= s.len() && !(s[i] == STAR && s[i + 1] == SLASH) {
        lemma_block_end_bounds(s, i + 1);
    }
}

/// Decomposes the tail of a gap, starting at `i`, into its comments:
/// whitespace is skipped, each line or block comment is taken verbatim,
/// and anything else makes the whole gap unclassifiable.
pub open spec fn gap_comments_from(s: Seq<u8>, i: int) -> Option<Seq<Seq<u8>>>
    decreases s.len() - i when 0 <= i <= s.len()
{
    if i == s.len() {
        Some(Seq::empty())
    } else if is_ws(s[i]) {
        gap_comments_from(s, i + 1)
    } else if s[i] == SLASH && i + 1 < s.len() && s[i + 1] == SLASH {
        proof {
            lemma_line_end_bounds(s, i + 1);
        }
        let e = line_end(s, i);
        match gap_comments_from(s, e) {
            Some(cs) => Some(seq![s.subrange(i, e)].add(cs)),
            None => None,
        }
    } else if s[i] == SLASH && i + 1 < s.len() && s[i + 1] == STAR {
        match block_end(s, i + 2) {
            Some(e) => {
                proof {
                    lemma_block_end_bounds(s, i + 2);
                }
                match gap_comments_from(s, e) {
                    Some(cs) => Some(seq![s.subrange(i, e)].add(cs)),
                    None => None,
                }
            },
            None => None,
        }
    } else {
        None
    }
}

/// The comments of a whole gap, in source order, or nothing when the gap
/// holds anything besides whitespace and comments.
pub open spec fn gap_comments(s: Seq<u8>) -> Option<Seq<Seq<u8>>> {
    gap_comments_from(s, 0)
}

pub fn find_line_end(s: &Vec<u8>, i: usize) -> (r: usize)
    requires
        i <= s.len(),
    ensures
        r == line_end(s@, i as int),
    decreases s.len() - i,
{
    if i == s.len() {
        i
    } else if s[i] == NEWLINE {
        i
    } else {
        find_line_end(s, i + 1)
    }
}

pub fn find_block_end(s: &Vec<u8>, i: usize) -> (r: Option<usize>)
    requires
        i <= s.len(),
    ensures
        match r {
            Some(e) => block_end(s@, i as int) == Some(e as int),
            None => block_end(s@, i as int) is None,
        },
    decreases s.len() - i,
{
    if i >= s.len() || i + 1 >= s.len() {
        None
    } else if s[i] == STAR && s[i + 1] == SLASH {
        Some(i + 2)
    } else {
        find_block_end(s, i + 1)
    }
}

/// Decomposes the tail of `s` starting at `i` as `gap_comments_from` does.
pub fn scan_gap_from(s: &Vec<u8>, i: usize) -> (r: Option<Vec<Vec<u8>>>)
    requires
        i <= s.len(),
    ensures
        match r {
            Some(cs) => gap_comments_from(s@, i as int) == Some(cs.deep_view()),
            None => gap_comments_from(s@, i as int) is None,
        },
    decreases s.len() - i,
{
    if i == s.len() {
        let r: Vec<Vec<u8>> = Vec::new();
        proof {
            assert(r.deep_view() =~= Seq::<Seq<u8>>::empty());
        }
        Some(r)
    } else if s[i] == 32 || s[i] == 9 || s[i] == 10 || s[i] == 13 {
        scan_gap_from(s, i + 1)
    } else if s[i] == SLASH && i + 1 < s.len() && s[i + 1] == SLASH {
        let e = find_line_end(s, i);
        proof {
            lemma_line_end_bounds(s@, i + 1);
        }
        let c = crate::bytes::subvec(s, i, e);
        match scan_gap_from(s, e) {
            Some(rest) => {
                let mut cs: Vec<Vec<u8>> = Vec::new();
                cs.push(c);
                let mut rest = rest;
                cs.append(&mut rest);
                proof {
                    assert(cs.deep_view() =~~= seq![s@.subrange(i as int, e as int)].add(
                        gap_comments_from(s@, e as int).unwrap()));
                }
                Some(cs)
            },
            None => None,
        }
    } else if s[i] == SLASH && i + 1 < s.len() && s[i + 1] == STAR {
        match find_block_end(s, i + 2) {
            Some(e) => {
                proof {
                    lemma_block_end_bounds(s@, i + 2);
                }
                let c = crate::bytes::subvec(s, i, e);
                match scan_gap_from(s, e) {
                    Some(rest) => {
                        let mut cs: Vec<Vec<u8>> = Vec::new();
                        cs.push(c);
                        let mut rest = rest;
                        cs.append(&mut rest);
                        proof {
                            assert(cs.deep_view() =~~= seq![s@.subrange(i as int, e as int)].add(
                                gap_comments_from(s@, e as int).unwrap()));
                        }
                        Some(cs)
                    },
                    None => None,
                }
            },
            None => None,
        }
    } else {
        None
    }
}

/// Decomposes a whole gap into its comments, or reports that it cannot be
/// classified.
pub fn scan_gap(s: &Vec<u8>) -> (r: Option<Vec<Vec<u8>>>)
    ensures
        match r {
            Some(cs) => gap_comments(s@) == Some(cs.deep_view()),
            None => gap_comments(s@) is None,
        },
{
    scan_gap_from(s, 0)
}

} // verus!
