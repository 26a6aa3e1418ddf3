//! Assembling ordered header fragments (qualifiers, keyword, identifier)
//! into one rendered header, reinserting comments found between them.
//!
//! Headers such as `pub const unsafe fn foo` always render on a single
//! line except when there are comments between parts of the header.

use vstd::prelude::*;
use crate::bytes::{copy_bytes, push_bytes, SPACE};
use crate::comment::{combine, spec_combine};
use crate::shape::{Shape, WidthBudget};
use crate::source::{find_uncommented, SnippetProvider};
use crate::span::Span;

verus! {

/// A malformed fragment description was handed in by a collaborator, such
/// as a global path without its leading root segment.  Construction
/// aborts rather than emitting syntactically broken text.
#[derive(Clone, Copy, Debug, PartialEq, Eq, Structural)]
pub struct InvariantViolation;

/// One renderable piece of a header: its text, carrying no surrounding
/// whitespace, and the span it came from in the original source.
#[derive(Debug)]
pub struct HeaderPart {
    pub text: Vec<u8>,
    pub span: Span,
}

/// How a visibility qualifier was written.
#[derive(Debug)]
pub enum VisibilityKind {
    /// `pub`.
    Public,
    /// No qualifier at all; renders as the empty fragment.
    Inherited,
    /// `pub(...)`, restricted to the path with the given `::`-separated
    /// segments.  A global path carries an empty root segment first.
    Restricted { segments: Vec<Vec<u8>>, is_global: bool },
}

/// A visibility qualifier together with its span.
#[derive(Debug)]
pub struct Visibility {
    pub kind: VisibilityKind,
    pub span: Span,
}

/// How a safety qualifier was written.
#[derive(Clone, Copy, Debug)]
pub enum Safety {
    /// `unsafe`, with its span.
    Unsafe(Span),
    /// `safe`, with its span.
    Safe(Span),
    /// No qualifier; renders as the empty fragment.
    Default,
}

/// "pub"
pub open spec fn text_pub() -> Seq<u8> {
    seq![112u8, 117u8, 98u8]
}

/// "crate"
pub open spec fn text_crate() -> Seq<u8> {
    seq![99u8, 114u8, 97u8, 116u8, 101u8]
}

/// "self"
pub open spec fn text_self() -> Seq<u8> {
    seq![115u8, 101u8, 108u8, 102u8]
}

/// "super"
pub open spec fn text_super() -> Seq<u8> {
    seq![115u8, 117u8, 112u8, 101u8, 114u8]
}

/// "unsafe"
pub open spec fn text_unsafe() -> Seq<u8> {
    seq![117u8, 110u8, 115u8, 97u8, 102u8, 101u8]
}

/// "safe"
pub open spec fn text_safe() -> Seq<u8> {
    seq![115u8, 97u8, 102u8, 101u8]
}

/// "in "
pub open spec fn text_in() -> Seq<u8> {
    seq![105u8, 110u8, 32u8]
}

/// Path segments joined by `::`.
pub open spec fn join_path(segs: Seq<Seq<u8>>) -> Seq<u8>
    decreases segs.len(),
{
    if segs.len() == 0 {
        Seq::empty()
    } else if segs.len() == 1 {
        segs[0]
    } else {
        join_path(segs.drop_last()) + seq![58u8, 58u8] + segs.last()
    }
}

/// Whether a joined restriction path is exactly one of the path keywords
/// `crate`, `self` or `super`, which take no `in` prefix.
pub open spec fn path_keyword(p: Seq<u8>) -> bool {
    p == text_crate() || p == text_self() || p == text_super()
}

/// The rendered text of a visibility qualifier, or nothing when the
/// description violates its invariant: a path marked global must carry
/// its leading root segment.
pub open spec fn spec_visibility_text(kind: VisibilityKind) -> Option<Seq<u8>> {
    match kind {
        VisibilityKind::Public => Some(text_pub()),
        VisibilityKind::Inherited => Some(Seq::empty()),
        VisibilityKind::Restricted { segments, is_global } => {
            if is_global && segments@.len() == 0 {
                None
            } else {
                let segs = if is_global {
                    segments.deep_view().skip(1)
                } else {
                    segments.deep_view()
                };
                let path = join_path(segs);
                let prefix = if path_keyword(path) {
                    Seq::<u8>::empty()
                } else {
                    text_in()
                };
                Some(seq![112u8, 117u8, 98u8, 40u8] + prefix + path + seq![41u8])
            }
        },
    }
}

/// The rendered text of a safety qualifier.
pub open spec fn spec_safety_text(safety: Safety) -> Seq<u8> {
    match safety {
        Safety::Unsafe(_) => text_unsafe(),
        Safety::Safe(_) => text_safe(),
        Safety::Default => Seq::empty(),
    }
}

/// The span a safety qualifier contributes: its own for an explicit
/// qualifier, the placeholder span for the implicit default.
pub open spec fn spec_safety_span(safety: Safety) -> Span {
    match safety {
        Safety::Unsafe(span) => span,
        Safety::Safe(span) => span,
        Safety::Default => Span { lo: 0, hi: 0 },
    }
}

/// The parts of `parts` that render to nonempty text, in order: empty
/// fragments are ignored and never contribute a gap.
pub open spec fn drop_empties(parts: Seq<HeaderPart>) -> Seq<HeaderPart>
    decreases parts.len(),
{
    if parts.len() == 0 {
        parts
    } else {
        let rest = drop_empties(parts.drop_last());
        if parts.last().text@.len() == 0 {
            rest
        } else {
            rest.push(parts.last())
        }
    }
}

/// Fragment lists are assumed well formed: every nonempty fragment's span
/// lies inside the source buffer, and nonempty fragments appear in source
/// order, so the gap between two consecutive ones is a valid span.
pub open spec fn header_wf(src: Seq<u8>, parts: Seq<HeaderPart>) -> bool {
    (forall|i: int|
        0 <= i < parts.len() ==> ((#[trigger] parts[i]).text@.len() > 0
            ==> parts[i].span.in_buf(src.len() as int)))
    && (forall|i: int, j: int|
        0 <= i < j < parts.len() ==> ((#[trigger] parts[i]).text@.len() > 0
            && (#[trigger] parts[j]).text@.len() > 0
            ==> parts[i].span.hi <= parts[j].span.lo))
}

/// The header rendered from the already-filtered fragments `f`: the first
/// fragment's text, then each later fragment merged on through the gap
/// before it, with a plain space join as the fallback when a gap cannot
/// be classified.  The width limit is lifted, so fragments join on one
/// line unless a comment in a gap forces a break.
pub open spec fn spec_header_fold(src: Seq<u8>, ind: int, f: Seq<HeaderPart>) -> Seq<u8>
    decreases f.len(),
{
    if f.len() == 0 {
        Seq::empty()
    } else if f.len() == 1 {
        f[0].text@
    } else {
        let prev = spec_header_fold(src, ind, f.drop_last());
        let gap = src.subrange(f[f.len() - 2].span.hi as int, f.last().span.lo as int);
        match spec_combine(prev, f.last().text@, gap, WidthBudget::Unbounded, ind, true) {
            Some(r) => r,
            None => prev + seq![SPACE] + f.last().text@,
        }
    }
}

/// The header rendered from `parts` against the source buffer `src`.
pub open spec fn spec_format_header(src: Seq<u8>, shape: Shape, parts: Seq<HeaderPart>) -> Seq<
    u8,
> {
    spec_header_fold(src, shape.indent as int, drop_empties(parts))
}

/// Builds a finished header from ordered fragments: empty fragments are
/// filtered out, the rest fold left to right through the comment merger,
/// and a gap that cannot be classified falls back to a plain space join.
pub fn format_header(
    provider: &SnippetProvider,
    shape: Shape,
    parts: Vec<HeaderPart>,
) -> (r: Vec<u8>)
    requires
        header_wf(provider.contents(), parts@),
    ensures
        r@ == spec_format_header(provider.contents(), shape, parts@),
{
    let shape = shape.infinite_width();
    let mut result: Vec<u8> = Vec::new();
    let mut cur_span = Span::dummy();
    let mut started = false;
    let ghost mut last_idx: int = 0;
    let mut i: usize = 0;
    while i < parts.len()
        invariant
            i <= parts.len(),
            header_wf(provider.contents(), parts@),
            shape.width is Unbounded,
            started <==> drop_empties(parts@.take(i as int)).len() > 0,
            started ==> 0 <= last_idx < i && parts@[last_idx].text@.len() > 0
                && drop_empties(parts@.take(i as int)).last() == parts@[last_idx]
                && cur_span == parts@[last_idx].span,
            result@ == spec_header_fold(
                provider.contents(),
                shape.indent as int,
                drop_empties(parts@.take(i as int)),
            ),
        decreases parts.len() - i,
    {
        let ghost f = drop_empties(parts@.take(i as int));
        proof {
            assert(parts@.take(i + 1).drop_last() =~= parts@.take(i as int));
            assert(parts@.take(i + 1).last() == parts@[i as int]);
        }
        let p = &parts[i];
        if p.text.len() > 0 {
            proof {
                assert(drop_empties(parts@.take(i + 1)) =~= f.push(parts@[i as int]));
            }
            if !started {
                result = copy_bytes(&p.text);
                cur_span = p.span;
                started = true;
            } else {
                let gap = cur_span.between(p.span);
                let merged = combine(provider, &result, &p.text, gap, shape, true);
                proof {
                    let g = f.push(parts@[i as int]);
                    assert(g.drop_last() =~= f);
                    assert(g[g.len() - 2] == parts@[last_idx]);
                }
                match merged {
                    Ok(v) => {
                        result = v;
                    },
                    Err(_) => {
                        result.push(SPACE);
                        push_bytes(&mut result, &p.text);
                        proof {
                            assert(result@ =~= spec_header_fold(
                                provider.contents(),
                                shape.indent as int,
                                f,
                            ) + seq![SPACE] + parts@[i as int].text@);
                        }
                    },
                }
                cur_span = p.span;
            }
            proof {
                last_idx = i as int;
            }
        }
        i = i + 1;
    }
    proof {
        assert(parts@.take(parts@.len() as int) =~= parts@);
    }
    result
}

impl HeaderPart {
    pub fn new(text: Vec<u8>, span: Span) -> (p: HeaderPart)
        ensures
            p.text@ == text@,
            p.span == span,
    {
        HeaderPart { text, span }
    }

    /// The fragment for an identifier: its text as it will be rendered,
    /// and the span it occupies in the source.
    pub fn ident(text: Vec<u8>, span: Span) -> (p: HeaderPart)
        ensures
            p.text@ == text@,
            p.span == span,
    {
        HeaderPart { text, span }
    }

    /// The fragment for a visibility qualifier: `pub`, the empty fragment
    /// for inherited visibility, or `pub(...)` for a restricted one.
    /// Fails when a path marked global is missing its required leading
    /// root segment, which signals malformed collaborator input.
    pub fn visibility(vis: &Visibility) -> (r: Result<HeaderPart, InvariantViolation>)
        ensures
            match r {
                Ok(p) => spec_visibility_text(vis.kind) == Some(p.text@) && p.span == vis.span,
                Err(_) => spec_visibility_text(vis.kind) is None,
            },
    {
        match &vis.kind {
            VisibilityKind::Public => {
                let mut text: Vec<u8> = Vec::new();
                text.push(112);
                text.push(117);
                text.push(98);
                proof {
                    assert(text@ =~= text_pub());
                }
                Ok(HeaderPart { text, span: vis.span })
            },
            VisibilityKind::Inherited => {
                let text: Vec<u8> = Vec::new();
                proof {
                    assert(text@ =~= Seq::<u8>::empty());
                }
                Ok(HeaderPart { text, span: vis.span })
            },
            VisibilityKind::Restricted { segments, is_global } => {
                let start: usize = if *is_global {
                    1
                } else {
                    0
                };
                if segments.len() < start {
                    return Err(InvariantViolation);
                }
                let ghost segs = if *is_global {
                    segments.deep_view().skip(1)
                } else {
                    segments.deep_view()
                };
                let mut path: Vec<u8> = Vec::new();
                let mut j: usize = start;
                while j < segments.len()
                    invariant
                        start <= j <= segments.len(),
                        start <= 1,
                        segs == segments.deep_view().skip(start as int),
                        path@ == join_path(segs.take(j - start)),
                    decreases segments.len() - j,
                {
                    if j > start {
                        path.push(58);
                        path.push(58);
                    }
                    push_bytes(&mut path, &segments[j]);
                    j = j + 1;
                    proof {
                        let k = j - start;
                        assert(segs.take(k).drop_last() =~= segs.take(k - 1));
                        assert(segs.take(k).last() =~= segments@[j - 1]@);
                        if k > 1 {
                            assert(path@ =~= join_path(segs.take(k - 1)) + seq![58u8, 58u8]
                                + segs.take(k).last());
                        } else {
                            assert(path@ =~= segs.take(1)[0]);
                        }
                    }
                }
                proof {
                    assert(segs.take(segments.len() - start) =~= segs);
                }
                let keyword_path = is_path_keyword(&path);
                let mut text: Vec<u8> = Vec::new();
                text.push(112);
                text.push(117);
                text.push(98);
                text.push(40);
                if !keyword_path {
                    text.push(105);
                    text.push(110);
                    text.push(32);
                }
                push_bytes(&mut text, &path);
                text.push(41);
                proof {
                    let prefix = if path_keyword(path@) {
                        Seq::<u8>::empty()
                    } else {
                        text_in()
                    };
                    assert(text@ =~= seq![112u8, 117u8, 98u8, 40u8] + prefix + path@
                        + seq![41u8]);
                }
                Ok(HeaderPart { text, span: vis.span })
            },
        }
    }

    /// The fragment for a safety qualifier: `unsafe` or `safe` with its
    /// own span, or the empty fragment for the implicit default.
    pub fn safety(safety: Safety) -> (p: HeaderPart)
        ensures
            p.text@ == spec_safety_text(safety),
            p.span == spec_safety_span(safety),
    {
        match safety {
            Safety::Unsafe(span) => {
                let mut text: Vec<u8> = Vec::new();
                text.push(117);
                text.push(110);
                text.push(115);
                text.push(97);
                text.push(102);
                text.push(101);
                proof {
                    assert(text@ =~= text_unsafe());
                }
                HeaderPart { text, span }
            },
            Safety::Safe(span) => {
                let mut text: Vec<u8> = Vec::new();
                text.push(115);
                text.push(97);
                text.push(102);
                text.push(101);
                proof {
                    assert(text@ =~= text_safe());
                }
                HeaderPart { text, span }
            },
            Safety::Default => {
                let text: Vec<u8> = Vec::new();
                HeaderPart { text, span: Span::dummy() }
            },
        }
    }

    /// Given a `span` that points at `/* comment */ keyword /* comment */`,
    /// the fragment for that keyword, tagged with the keyword's own tight
    /// sub-span so that later gap computation stays precise.  Nothing is
    /// returned when the keyword cannot be found outside comments in the
    /// span.
    pub fn keyword(provider: &SnippetProvider, keyword: Vec<u8>, span: Span) -> (r: Option<
        HeaderPart,
    >)
        requires
            span.in_buf(provider.contents().len() as int),
            1 <= keyword.len(),
        ensures
            ({
                let t = provider.contents().subrange(span.lo as int, span.hi as int);
                match r {
                    Some(p) => find_uncommented(t, keyword@, 0) is Some && p.text@ == keyword@
                        && p.span.lo == span.lo + find_uncommented(t, keyword@, 0).unwrap()
                        && p.span.hi == p.span.lo + keyword@.len(),
                    None => find_uncommented(t, keyword@, 0) is None,
                }
            }),
    {
        match provider.span_before(span, &keyword) {
            Some(lo) => {
                let hi = lo + keyword.len();
                Some(HeaderPart { text: keyword, span: Span { lo, hi } })
            },
            None => None,
        }
    }
}

/// Where fragment `i`'s text begins in the header rendered from the
/// first `i + 1` fragments — and, by the order law below, in the whole
/// rendered header.
pub open spec fn frag_start(src: Seq<u8>, ind: int, f: Seq<HeaderPart>, i: int) -> int {
    spec_header_fold(src, ind, f.take(i + 1)).len() - f[i].text@.len()
}

/// One folding step only appends: the earlier rendering stays as a
/// prefix, at least one glue byte follows it, and the newly merged
/// fragment's text closes the result.
proof fn lemma_fold_extends(src: Seq<u8>, ind: int, f: Seq<HeaderPart>)
    requires
        f.len() >= 2,
    ensures
        ({
            let r = spec_header_fold(src, ind, f);
            let prev = spec_header_fold(src, ind, f.drop_last());
            let t = f.last().text@;
            &&& prev.len() + 1 + t.len() <= r.len()
            &&& r.subrange(0, prev.len() as int) == prev
            &&& r.subrange(r.len() - t.len(), r.len() as int) == t
        }),
{
    let r = spec_header_fold(src, ind, f);
    let prev = spec_header_fold(src, ind, f.drop_last());
    let t = f.last().text@;
    let gap = src.subrange(f[f.len() - 2].span.hi as int, f.last().span.lo as int);
    match spec_combine(prev, t, gap, WidthBudget::Unbounded, ind, true) {
        Some(v) => {
            let cs = crate::scan::gap_comments(gap).unwrap();
            if cs.len() == 0 {
                assert(r == prev + seq![SPACE] + t);
                assert(r.subrange(0, prev.len() as int) =~= prev);
                assert(r.subrange(r.len() - t.len(), r.len() as int) =~= t);
            } else {
                assert(r == prev + crate::comment::comments_block(cs, ind)
                    + crate::bytes::break_indent(ind) + t);
                assert(r.subrange(0, prev.len() as int) =~= prev);
                assert(r.subrange(r.len() - t.len(), r.len() as int) =~= t);
            }
        },
        None => {
            assert(r == prev + seq![SPACE] + t);
            assert(r.subrange(0, prev.len() as int) =~= prev);
            assert(r.subrange(r.len() - t.len(), r.len() as int) =~= t);
        },
    }
}

proof fn lemma_fold_order(src: Seq<u8>, ind: int, f: Seq<HeaderPart>, i: int)
    requires
        0 <= i < f.len(),
    ensures
        ({
            let r = spec_header_fold(src, ind, f);
            let st = frag_start(src, ind, f, i);
            &&& 0 <= st
            &&& st + f[i].text@.len() <= r.len()
            &&& r.subrange(st, st + f[i].text@.len()) == f[i].text@
            &&& (i + 1 < f.len() ==> st + f[i].text@.len() < frag_start(src, ind, f, i + 1))
        }),
    decreases f.len(),
{
    let r = spec_header_fold(src, ind, f);
    let t = f[i].text@;
    let st = frag_start(src, ind, f, i);
    if i == f.len() - 1 {
        assert(f.take(i + 1) =~= f);
        if f.len() == 1 {
            assert(r.subrange(0, t.len() as int) =~= t);
        } else {
            lemma_fold_extends(src, ind, f);
        }
    } else {
        let dl = f.drop_last();
        assert(dl.take(i + 1) =~= f.take(i + 1));
        lemma_fold_order(src, ind, dl, i);
        lemma_fold_extends(src, ind, f);
        let prev = spec_header_fold(src, ind, dl);
        assert(prev.subrange(st, st + t.len()) == t);
        crate::bytes::lemma_prefix_subrange(prev, r, st, t.len() as int);
        if i + 1 < f.len() {
            if i + 1 == f.len() - 1 {
                assert(f.take(i + 2) =~= f);
            } else {
                assert(dl.take(i + 2) =~= f.take(i + 2));
            }
        }
    }
}

/// Everything rendered from the first `k` fragments stays, unchanged, at
/// the front of the rendering of the whole list.
proof fn lemma_fold_prefix(src: Seq<u8>, ind: int, f: Seq<HeaderPart>, k: int)
    requires
        1 <= k <= f.len(),
    ensures
        ({
            let r = spec_header_fold(src, ind, f);
            let p = spec_header_fold(src, ind, f.take(k));
            &&& p.len() <= r.len()
            &&& r.subrange(0, p.len() as int) == p
        }),
    decreases f.len(),
{
    let r = spec_header_fold(src, ind, f);
    let p = spec_header_fold(src, ind, f.take(k));
    if k == f.len() {
        assert(f.take(k) =~= f);
        assert(r.subrange(0, p.len() as int) =~= p);
    } else {
        let dl = f.drop_last();
        assert(dl.take(k) =~= f.take(k));
        lemma_fold_prefix(src, ind, dl, k);
        lemma_fold_extends(src, ind, f);
        crate::bytes::lemma_prefix_subrange(
            spec_header_fold(src, ind, dl),
            r,
            0,
            p.len() as int,
        );
    }
}

/// No information loss: every comment recognized in the gap before
/// fragment `k` appears verbatim in the rendered header, at a position
/// inside the part folded so far — after everything rendered from the
/// fragments before it, and in the gap's own order.
pub proof fn lemma_header_keeps_comments(
    src: Seq<u8>,
    shape: Shape,
    parts: Seq<HeaderPart>,
    k: int,
    j: int,
)
    requires
        1 <= k < parts.len(),
        forall|m: int| 0 <= m < parts.len() ==> (#[trigger] parts[m]).text@.len() > 0,
        crate::scan::gap_comments(
            src.subrange(parts[k - 1].span.hi as int, parts[k].span.lo as int),
        ) is Some,
        0 <= j < crate::scan::gap_comments(
            src.subrange(parts[k - 1].span.hi as int, parts[k].span.lo as int),
        ).unwrap().len(),
    ensures
        ({
            let ind = shape.indent as int;
            let gap = src.subrange(parts[k - 1].span.hi as int, parts[k].span.lo as int);
            let cs = crate::scan::gap_comments(gap).unwrap();
            let before = spec_header_fold(src, ind, parts.take(k));
            let st = crate::comment::comment_start(before, cs, ind, j);
            let r = spec_format_header(src, shape, parts);
            &&& before.len() < st
            &&& st + cs[j].len() < spec_header_fold(src, ind, parts.take(k + 1)).len()
            &&& st + cs[j].len() <= r.len()
            &&& r.subrange(st, st + cs[j].len()) == cs[j]
            &&& (j > 0 ==> crate::comment::comment_start(before, cs, ind, j - 1)
                + cs[j - 1].len() < st)
        }),
{
    let ind = shape.indent as int;
    let gap = src.subrange(parts[k - 1].span.hi as int, parts[k].span.lo as int);
    let cs = crate::scan::gap_comments(gap).unwrap();
    let before = spec_header_fold(src, ind, parts.take(k));
    let st = crate::comment::comment_start(before, cs, ind, j);
    lemma_drop_empties_id(parts);
    let g = parts.take(k + 1);
    assert(g.drop_last() =~= parts.take(k));
    assert(g.last() == parts[k]);
    assert(g[g.len() - 2] == parts[k - 1]);
    crate::comment::lemma_combine_preserves_comments(
        before,
        parts[k].text@,
        gap,
        WidthBudget::Unbounded,
        ind,
        true,
        j,
    );
    let merged = spec_combine(
        before,
        parts[k].text@,
        gap,
        WidthBudget::Unbounded,
        ind,
        true,
    ).unwrap();
    assert(spec_header_fold(src, ind, g) == merged);
    lemma_fold_prefix(src, ind, parts, k + 1);
    crate::bytes::lemma_prefix_subrange(
        merged,
        spec_header_fold(src, ind, parts),
        st,
        cs[j].len() as int,
    );
}

/// Order preservation: fragments render in input order.  In a list of
/// nonempty fragments — empty ones are dropped before assembly and never
/// rendered — fragment `i`'s text occurs verbatim at `frag_start(.., i)`
/// of the rendered header, and each fragment's text ends strictly before
/// the next fragment's text begins.
pub proof fn lemma_header_order(src: Seq<u8>, shape: Shape, parts: Seq<HeaderPart>, i: int)
    requires
        0 <= i < parts.len(),
        forall|k: int| 0 <= k < parts.len() ==> (#[trigger] parts[k]).text@.len() > 0,
    ensures
        ({
            let ind = shape.indent as int;
            let r = spec_format_header(src, shape, parts);
            let st = frag_start(src, ind, parts, i);
            &&& 0 <= st
            &&& st + parts[i].text@.len() <= r.len()
            &&& r.subrange(st, st + parts[i].text@.len()) == parts[i].text@
            &&& (i + 1 < parts.len() ==> st + parts[i].text@.len() < frag_start(
                src,
                ind,
                parts,
                i + 1,
            ))
        }),
{
    lemma_drop_empties_id(parts);
    lemma_fold_order(src, shape.indent as int, parts, i);
}

/// A list without empty fragments passes the filter unchanged.
pub proof fn lemma_drop_empties_id(parts: Seq<HeaderPart>)
    requires
        forall|k: int| 0 <= k < parts.len() ==> (#[trigger] parts[k]).text@.len() > 0,
    ensures
        drop_empties(parts) == parts,
    decreases parts.len(),
{
    if parts.len() > 0 {
        lemma_drop_empties_id(parts.drop_last());
        assert(drop_empties(parts) =~= parts);
    }
}

/// Determinism: formatting identical fragments against the same source
/// and shape twice yields identical output.
pub proof fn lemma_format_header_deterministic(
    src: Seq<u8>,
    shape: Shape,
    parts: Seq<HeaderPart>,
    r1: Seq<u8>,
    r2: Seq<u8>,
)
    requires
        r1 == spec_format_header(src, shape, parts),
        r2 == spec_format_header(src, shape, parts),
    ensures
        r1 == r2,
{
}

/// Whether the joined path is exactly `crate`, `self` or `super`.
pub fn is_path_keyword(p: &Vec<u8>) -> (b: bool)
    ensures
        b == path_keyword(p@),
{
    if p.len() == 5 {
        let c = p[0] == 99 && p[1] == 114 && p[2] == 97 && p[3] == 116 && p[4] == 101;
        let s = p[0] == 115 && p[1] == 117 && p[2] == 112 && p[3] == 101 && p[4] == 114;
        proof {
            assert(c ==> p@ =~= text_crate());
            assert(s ==> p@ =~= text_super());
        }
        c || s
    } else if p.len() == 4 {
        let s = p[0] == 115 && p[1] == 101 && p[2] == 108 && p[3] == 102;
        proof {
            assert(s ==> p@ =~= text_self());
        }
        s
    } else {
        false
    }
}

} // verus!
