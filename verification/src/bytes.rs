//! Small verified helpers over byte vectors: copying, slicing, indentation.

use vstd::prelude::*;

verus! {

pub const NEWLINE: u8 = 10;
pub const SPACE: u8 = 32;

/// A run of `n` spaces.
pub open spec fn spaces(n: int) -> Seq<u8>
    decreases n,
{
    if n <= 0 {
        Seq::empty()
    } else {
        spaces(n - 1).push(SPACE)
    }
}

/// A line break followed by `n` spaces of indentation.
pub open spec fn break_indent(n: int) -> Seq<u8> {
    seq![NEWLINE].add(spaces(n))
}

/// Whether `s` spans more than one line.
pub open spec fn has_newline(s: Seq<u8>) -> bool {
    exists|i: int| 0 <= i < s.len() && s[i] == NEWLINE
}

pub proof fn lemma_spaces_len(n: int)
    ensures
        n >= 0 ==> spaces(n).len() == n,
        n < 0 ==> spaces(n).len() == 0,
    decreases n,
{
    if n > 0 {
        lemma_spaces_len(n - 1);
    }
}

/// A subrange taken inside a prefix of `b` can be read off the prefix.
pub proof fn lemma_prefix_subrange(a: Seq<u8>, b: Seq<u8>, off: int, l: int)
    requires
        a.len() <= b.len(),
        b.subrange(0, a.len() as int) == a,
        0 <= off,
        0 <= l,
        off + l <= a.len(),
    ensures
        b.subrange(off, off + l) == a.subrange(off, off + l),
{
    assert(b.subrange(off, off + l) =~= a.subrange(off, off + l)) by {
        assert forall|k: int| 0 <= k < l implies #[trigger] b[off + k] == a[off + k] by {
            assert(a[off + k] == b.subrange(0, a.len() as int)[off + k]);
        }
    }
}

pub fn copy_bytes(src: &Vec<u8>) -> (r: Vec<u8>)
    ensures
        r@ == src@,
{
    let mut r: Vec<u8> = Vec::new();
    let mut i: usize = 0;
    while i < src.len()
        invariant
            i <= src.len(),
            r@ == src@.take(i as int),
        decreases src.len() - i,
    {
        r.push(src[i]);
        i = i + 1;
        proof {
            assert(r@ =~= src@.take(i as int));
        }
    }
    proof {
        assert(src@.take(src@.len() as int) =~= src@);
    }
    r
}

pub fn push_bytes(dst: &mut Vec<u8>, src: &Vec<u8>)
    ensures
        final(dst)@ == old(dst)@ + src@,
{
    let mut i: usize = 0;
    while i < src.len()
        invariant
            i <= src.len(),
            dst@ == old(dst)@ + src@.take(i as int),
        decreases src.len() - i,
    {
        dst.push(src[i]);
        i = i + 1;
        proof {
            assert(dst@ =~= old(dst)@ + src@.take(i as int));
        }
    }
    proof {
        assert(old(dst)@ + src@.take(src@.len() as int) =~= old(dst)@ + src@);
    }
}

/// The bytes of `src` in the half-open range `[lo, hi)`.
pub fn subvec(src: &Vec<u8>, lo: usize, hi: usize) -> (r: Vec<u8>)
    requires
        lo <= hi <= src.len(),
    ensures
        r@ == src@.subrange(lo as int, hi as int),
{
    let mut r: Vec<u8> = Vec::new();
    let mut i: usize = lo;
    while i < hi
        invariant
            lo <= i <= hi <= src.len(),
            r@ == src@.subrange(lo as int, i as int),
        decreases hi - i,
    {
        r.push(src[i]);
        i = i + 1;
        proof {
            assert(r@ =~= src@.subrange(lo as int, i as int));
        }
    }
    r
}

/// Appends a line break and `n` spaces of indentation to `dst`.
pub fn push_break_indent(dst: &mut Vec<u8>, n: usize)
    ensures
        final(dst)@ == old(dst)@ + break_indent(n as int),
{
    dst.push(NEWLINE);
    let mut i: usize = 0;
    while i < n
        invariant
            i <= n,
            dst@ == old(dst)@ + seq![NEWLINE] + spaces(i as int),
        decreases n - i,
    {
        dst.push(SPACE);
        i = i + 1;
    }
    proof {
        assert(dst@ =~= old(dst)@ + break_indent(n as int));
    }
}

/// Whether `s` contains a line break.
pub fn is_multiline(s: &Vec<u8>) -> (b: bool)
    ensures
        b == has_newline(s@),
{
    let mut i: usize = 0;
    while i < s.len()
        invariant
            i <= s.len(),
            forall|j: int| 0 <= j < i ==> s@[j] != NEWLINE,
        decreases s.len() - i,
    {
        if s[i] == NEWLINE {
            return true;
        }
        i = i + 1;
    }
    false
}

/// Whether the bytes of `pat` occur in `s` starting at position `i`.
pub fn matches_at(s: &Vec<u8>, i: usize, pat: &Vec<u8>) -> (b: bool)
    requires
        i + pat.len() <= s.len(),
    ensures
        b == (s@.subrange(i as int, i + pat@.len()) == pat@),
{
    let mut j: usize = 0;
    while j < pat.len()
        invariant
            j <= pat.len(),
            i + pat.len() <= s.len(),
            forall|k: int| 0 <= k < j ==> s@[i + k] == pat@[k],
        decreases pat.len() - j,
    {
        if s[i + j] != pat[j] {
            proof {
                assert(s@.subrange(i as int, i + pat@.len())[j as int] != pat@[j as int]);
            }
            return false;
        }
        j = j + 1;
    }
    proof {
        assert(s@.subrange(i as int, i + pat@.len()) =~= pat@);
    }
    true
}

} // verus!
