//! Laying out ordered list items under a chosen tactic, width budget and
//! indent style, with correct separators and trailing punctuation.

use vstd::prelude::*;
use crate::bytes::{
    break_indent, has_newline, is_multiline, push_break_indent, push_bytes, subvec, SPACE,
};
use crate::shape::{fits, Shape, WidthBudget};
use crate::span::Span;

verus! {

/// Columns a continuation line is shifted by under block indentation.
pub const INDENT_WIDTH: usize = 4;

/// The packing strategy for list items, chosen per list instance.
#[derive(Clone, Copy, Debug, PartialEq, Eq, Structural)]
pub enum Tactic {
    /// All items on one line, unconditionally.
    Horizontal,
    /// Exactly one item per line, unconditionally.
    Vertical,
    /// Pack items left to right, breaking whenever the next item with its
    /// separator would exceed the width budget.
    Mixed,
    /// One line when everything fits and no item is already multi-line,
    /// otherwise exactly one item per line.
    HorizontalVertical,
}

/// How continuation lines are aligned.
#[derive(Clone, Copy, Debug, PartialEq, Eq, Structural)]
pub enum IndentStyle {
    /// A fixed offset from the opening construct's line, whose indent the
    /// caller passes as the shape's indent.
    Block,
    /// Aligned under the column of the first item, which the caller
    /// passes as the shape's indent.
    Visual,
}

/// Whether the final item receives a trailing separator.
#[derive(Clone, Copy, Debug, PartialEq, Eq, Structural)]
pub enum SeparatorPolicy {
    Always,
    Never,
    MultilineOnly,
}

/// One list item: its rendered text, the comments captured immediately
/// around it, and the span it came from.
#[derive(Debug)]
pub struct ListItem {
    pub text: Vec<u8>,
    pub leading_comment: Option<Vec<u8>>,
    pub trailing_comment: Option<Vec<u8>>,
    pub span: Span,
}

/// The configuration of one layout call.
#[derive(Debug)]
pub struct ListConfig {
    pub tactic: Tactic,
    pub indent_style: IndentStyle,
    /// The text between two items on one line, such as `", "`.
    pub separator: Vec<u8>,
    pub trailing_separator: SeparatorPolicy,
}

/// One item as rendered: its leading comment, its text, and its trailing
/// comment, in that order, space-separated on one line.  A comment is
/// never dropped or reordered relative to its owning item.
pub open spec fn render_item(it: ListItem) -> Seq<u8> {
    (match it.leading_comment {
        Some(c) => c@ + seq![SPACE],
        None => Seq::<u8>::empty(),
    }) + it.text@ + (match it.trailing_comment {
        Some(c) => seq![SPACE] + c@,
        None => Seq::<u8>::empty(),
    })
}

/// The separator as it stands at the end of a line: trailing spaces
/// removed.
pub open spec fn sep_trimmed(sep: Seq<u8>) -> Seq<u8>
    decreases sep.len(),
{
    if sep.len() > 0 && sep.last() == SPACE {
        sep_trimmed(sep.drop_last())
    } else {
        sep
    }
}

/// The column continuation lines start at.
pub open spec fn cont_indent(style: IndentStyle, shape: Shape) -> int {
    match style {
        IndentStyle::Block => shape.indent + INDENT_WIDTH,
        IndentStyle::Visual => shape.indent as int,
    }
}

/// The items rendered in order with the fixed text `glue` between two
/// consecutive ones.
pub open spec fn spec_join(items: Seq<ListItem>, glue: Seq<u8>) -> Seq<u8>
    decreases items.len(),
{
    if items.len() == 0 {
        Seq::empty()
    } else if items.len() == 1 {
        render_item(items[0])
    } else {
        spec_join(items.drop_last(), glue) + glue + render_item(items.last())
    }
}

/// All items on one line, joined by the separator.
pub open spec fn spec_horizontal(items: Seq<ListItem>, sep: Seq<u8>) -> Seq<u8> {
    spec_join(items, sep)
}

/// Exactly one item per line: after each item but the last the trimmed
/// separator, a line break and the continuation indent.
pub open spec fn spec_vertical(items: Seq<ListItem>, tsep: Seq<u8>, ind: int) -> Seq<u8> {
    spec_join(items, tsep + break_indent(ind))
}

/// The tail of a mixed layout from item `i` on, with the cursor at column
/// `col`: the next item stays on the line when it fits with its separator
/// inside the width `w`, and otherwise starts a new line at the
/// continuation indent, the previous item keeping a trimmed separator.
pub open spec fn spec_mixed(
    items: Seq<ListItem>,
    i: int,
    col: int,
    w: int,
    sep: Seq<u8>,
    ind: int,
) -> Seq<u8>
    decreases items.len() - i when 0 <= i
{
    if i >= items.len() {
        Seq::empty()
    } else {
        let r = render_item(items[i]);
        if col + sep.len() + r.len() <= w {
            sep + r + spec_mixed(items, i + 1, col + sep.len() + r.len(), w, sep, ind)
        } else {
            sep_trimmed(sep) + break_indent(ind) + r + spec_mixed(
                items,
                i + 1,
                ind + r.len(),
                w,
                sep,
                ind,
            )
        }
    }
}

/// A whole mixed layout: the first item at column `ind0`, the rest packed
/// greedily against the width `w`.
pub open spec fn spec_mixed_all(
    items: Seq<ListItem>,
    w: int,
    sep: Seq<u8>,
    ind0: int,
    ind: int,
) -> Seq<u8> {
    if items.len() == 0 {
        Seq::empty()
    } else {
        render_item(items[0]) + spec_mixed(
            items,
            1,
            ind0 + render_item(items[0]).len(),
            w,
            sep,
            ind,
        )
    }
}

/// The body of a layout, before the trailing-separator policy is applied.
pub open spec fn spec_layout_body(items: Seq<ListItem>, shape: Shape, cfg: ListConfig) -> Seq<
    u8,
> {
    let cont = cont_indent(cfg.indent_style, shape);
    match cfg.tactic {
        Tactic::Horizontal => spec_horizontal(items, cfg.separator@),
        Tactic::Vertical => spec_vertical(items, sep_trimmed(cfg.separator@), cont),
        Tactic::Mixed => match shape.width {
            WidthBudget::Unbounded => spec_horizontal(items, cfg.separator@),
            WidthBudget::Bounded(w) => spec_mixed_all(
                items,
                w as int,
                cfg.separator@,
                shape.indent as int,
                cont,
            ),
        },
        Tactic::HorizontalVertical => {
            let h = spec_horizontal(items, cfg.separator@);
            if !has_newline(h) && fits(shape.indent + h.len(), shape.width) {
                h
            } else {
                spec_vertical(items, sep_trimmed(cfg.separator@), cont)
            }
        },
    }
}

/// A finished layout: the body under the chosen tactic, then a trimmed
/// trailing separator when the policy grants the final item one — always,
/// never, or exactly when the body spans several lines.
pub open spec fn spec_layout(items: Seq<ListItem>, shape: Shape, cfg: ListConfig) -> Seq<u8> {
    if items.len() == 0 {
        Seq::empty()
    } else {
        let body = spec_layout_body(items, shape, cfg);
        body + (match cfg.trailing_separator {
            SeparatorPolicy::Always => sep_trimmed(cfg.separator@),
            SeparatorPolicy::Never => Seq::<u8>::empty(),
            SeparatorPolicy::MultilineOnly => if has_newline(body) {
                sep_trimmed(cfg.separator@)
            } else {
                Seq::<u8>::empty()
            },
        })
    }
}

/// Where item `i`'s rendered text begins in the join of the first
/// `i + 1` items — and, by the order laws below, in the whole layout.
pub open spec fn item_start(items: Seq<ListItem>, glue: Seq<u8>, i: int) -> int {
    spec_join(items.take(i + 1), glue).len() - render_item(items[i]).len()
}

proof fn lemma_join_order(items: Seq<ListItem>, glue: Seq<u8>, i: int)
    requires
        0 <= i < items.len(),
        forall|k: int| 0 <= k < items.len() ==> render_item(#[trigger] items[k]).len() > 0,
    ensures
        ({
            let r = spec_join(items, glue);
            let st = item_start(items, glue, i);
            let l = render_item(items[i]).len() as int;
            &&& 0 <= st
            &&& st + l <= r.len()
            &&& r.subrange(st, st + l) == render_item(items[i])
            &&& (i + 1 < items.len() ==> st < item_start(items, glue, i + 1)
                && st + l <= item_start(items, glue, i + 1))
        }),
    decreases items.len(),
{
    let r = spec_join(items, glue);
    let t = render_item(items[i]);
    let st = item_start(items, glue, i);
    if i == items.len() - 1 {
        assert(items.take(i + 1) =~= items);
        if items.len() == 1 {
            assert(r.subrange(0, t.len() as int) =~= t);
        } else {
            let prev = spec_join(items.drop_last(), glue);
            assert(r == prev + glue + t);
            assert(r.subrange(r.len() - t.len(), r.len() as int) =~= t);
        }
    } else {
        let dl = items.drop_last();
        assert(dl.take(i + 1) =~= items.take(i + 1));
        lemma_join_order(dl, glue, i);
        let prev = spec_join(dl, glue);
        assert(r == prev + glue + render_item(items.last()));
        assert(r.subrange(0, prev.len() as int) =~= prev);
        crate::bytes::lemma_prefix_subrange(prev, r, st, t.len() as int);
        if i + 1 < items.len() {
            if i + 1 == items.len() - 1 {
                assert(items.take(i + 2) =~= items);
            } else {
                assert(dl.take(i + 2) =~= items.take(i + 2));
            }
        }
    }
}

/// The column of the cursor after a mixed layout has processed the items
/// from `i` on, starting at column `col`.
pub open spec fn mixed_col_from(
    items: Seq<ListItem>,
    i: int,
    col: int,
    w: int,
    sep: Seq<u8>,
    ind: int,
) -> int
    decreases items.len() - i when 0 <= i
{
    if i >= items.len() {
        col
    } else {
        let r = render_item(items[i]);
        if col + sep.len() + r.len() <= w {
            mixed_col_from(items, i + 1, col + sep.len() + r.len(), w, sep, ind)
        } else {
            mixed_col_from(items, i + 1, ind + r.len(), w, sep, ind)
        }
    }
}

/// The column of the cursor after a whole mixed layout.
pub open spec fn mixed_col(items: Seq<ListItem>, w: int, sep: Seq<u8>, ind0: int, ind: int) -> int {
    if items.len() == 0 {
        ind0
    } else {
        mixed_col_from(items, 1, ind0 + render_item(items[0]).len(), w, sep, ind)
    }
}

/// The glue a mixed layout puts before item `i`: the separator when the
/// item stays on its line, a trimmed separator and a line break at the
/// continuation indent when it does not.
pub open spec fn mixed_glue(
    items: Seq<ListItem>,
    w: int,
    sep: Seq<u8>,
    ind0: int,
    ind: int,
    i: int,
) -> Seq<u8> {
    if mixed_col(items.take(i), w, sep, ind0, ind) + sep.len() + render_item(items[i]).len()
        <= w {
        sep
    } else {
        sep_trimmed(sep) + break_indent(ind)
    }
}

/// Dropping the final item removes exactly that item's glue and text
/// from the tail of a mixed layout.
proof fn lemma_mixed_tail_extends(
    items: Seq<ListItem>,
    i: int,
    col: int,
    w: int,
    sep: Seq<u8>,
    ind: int,
)
    requires
        0 <= i < items.len(),
    ensures
        spec_mixed(items, i, col, w, sep, ind) == spec_mixed(items.drop_last(), i, col, w, sep, ind)
            + (if mixed_col_from(items.drop_last(), i, col, w, sep, ind) + sep.len()
                + render_item(items.last()).len() <= w {
                sep
            } else {
                sep_trimmed(sep) + break_indent(ind)
            }) + render_item(items.last()),
    decreases items.len() - i,
{
    let dl = items.drop_last();
    let t = render_item(items.last());
    if i == items.len() - 1 {
        assert(items[i] == items.last());
        assert(spec_mixed(dl, i, col, w, sep, ind) == Seq::<u8>::empty());
        assert(mixed_col_from(dl, i, col, w, sep, ind) == col);
        assert(spec_mixed(items, i + 1, col + sep.len() + t.len(), w, sep, ind)
            == Seq::<u8>::empty());
        assert(spec_mixed(items, i + 1, ind + t.len(), w, sep, ind) == Seq::<u8>::empty());
        assert(spec_mixed(items, i, col, w, sep, ind) =~= spec_mixed(dl, i, col, w, sep, ind)
            + (if mixed_col_from(dl, i, col, w, sep, ind) + sep.len() + t.len() <= w {
                sep
            } else {
                sep_trimmed(sep) + break_indent(ind)
            }) + t);
    } else {
        let r = render_item(items[i]);
        if col + sep.len() + r.len() <= w {
            lemma_mixed_tail_extends(items, i + 1, col + sep.len() + r.len(), w, sep, ind);
        } else {
            lemma_mixed_tail_extends(items, i + 1, ind + r.len(), w, sep, ind);
        }
        assert(spec_mixed(items, i, col, w, sep, ind) =~= spec_mixed(dl, i, col, w, sep, ind)
            + (if mixed_col_from(dl, i, col, w, sep, ind) + sep.len() + t.len() <= w {
                sep
            } else {
                sep_trimmed(sep) + break_indent(ind)
            }) + t);
    }
}

/// One step of a mixed layout only appends: the layout of all but the
/// last item stays as a prefix, then that item's glue and text follow.
proof fn lemma_mixed_all_extends(items: Seq<ListItem>, w: int, sep: Seq<u8>, ind0: int, ind: int)
    requires
        items.len() >= 2,
    ensures
        spec_mixed_all(items, w, sep, ind0, ind) == spec_mixed_all(
            items.drop_last(),
            w,
            sep,
            ind0,
            ind,
        ) + mixed_glue(items, w, sep, ind0, ind, items.len() - 1) + render_item(items.last()),
{
    let dl = items.drop_last();
    let c1 = ind0 + render_item(items[0]).len();
    lemma_mixed_tail_extends(items, 1, c1, w, sep, ind);
    assert(items.take(items.len() - 1) =~= dl);
    assert(spec_mixed_all(items, w, sep, ind0, ind) =~= spec_mixed_all(dl, w, sep, ind0, ind)
        + mixed_glue(items, w, sep, ind0, ind, items.len() - 1) + render_item(items.last()));
}

/// Where item `i`'s rendered text begins in the mixed layout of the
/// first `i + 1` items — and, by the order law below, in the whole
/// mixed layout.
pub open spec fn mixed_item_start(
    items: Seq<ListItem>,
    w: int,
    sep: Seq<u8>,
    ind0: int,
    ind: int,
    i: int,
) -> int {
    spec_mixed_all(items.take(i + 1), w, sep, ind0, ind).len() - render_item(items[i]).len()
}

/// Order preservation under the Mixed tactic: when no item renders to
/// empty text, item `i`'s rendering occurs verbatim at
/// `mixed_item_start(.., i)` of the mixed layout, and each item's text
/// starts strictly before the next one's and ends no later than the
/// next one begins.
pub proof fn lemma_mixed_order(
    items: Seq<ListItem>,
    w: int,
    sep: Seq<u8>,
    ind0: int,
    ind: int,
    i: int,
)
    requires
        0 <= i < items.len(),
        forall|k: int| 0 <= k < items.len() ==> render_item(#[trigger] items[k]).len() > 0,
    ensures
        ({
            let r = spec_mixed_all(items, w, sep, ind0, ind);
            let st = mixed_item_start(items, w, sep, ind0, ind, i);
            let l = render_item(items[i]).len() as int;
            &&& 0 <= st
            &&& st + l <= r.len()
            &&& r.subrange(st, st + l) == render_item(items[i])
            &&& (i + 1 < items.len() ==> st < mixed_item_start(items, w, sep, ind0, ind, i + 1)
                && st + l <= mixed_item_start(items, w, sep, ind0, ind, i + 1))
        }),
    decreases items.len(),
{
    let r = spec_mixed_all(items, w, sep, ind0, ind);
    let t = render_item(items[i]);
    let st = mixed_item_start(items, w, sep, ind0, ind, i);
    if i == items.len() - 1 {
        assert(items.take(i + 1) =~= items);
        if items.len() == 1 {
            assert(r =~= t);
            assert(r.subrange(0, t.len() as int) =~= t);
        } else {
            lemma_mixed_all_extends(items, w, sep, ind0, ind);
            assert(r.subrange(r.len() - t.len(), r.len() as int) =~= t);
        }
    } else {
        let dl = items.drop_last();
        assert(dl.take(i + 1) =~= items.take(i + 1));
        lemma_mixed_order(dl, w, sep, ind0, ind, i);
        lemma_mixed_all_extends(items, w, sep, ind0, ind);
        let prev = spec_mixed_all(dl, w, sep, ind0, ind);
        assert(r.subrange(0, prev.len() as int) =~= prev);
        crate::bytes::lemma_prefix_subrange(prev, r, st, t.len() as int);
        if i + 1 < items.len() {
            if i + 1 == items.len() - 1 {
                assert(items.take(i + 2) =~= items);
            } else {
                assert(dl.take(i + 2) =~= items.take(i + 2));
            }
        }
    }
}

/// Order preservation under Mixed, lifted to the finished layout with
/// its trailing-separator policy applied.
pub proof fn lemma_layout_order_mixed(
    items: Seq<ListItem>,
    shape: Shape,
    cfg: ListConfig,
    w: usize,
    i: int,
)
    requires
        0 <= i < items.len(),
        cfg.tactic is Mixed,
        shape.width == WidthBudget::Bounded(w),
        forall|k: int| 0 <= k < items.len() ==> render_item(#[trigger] items[k]).len() > 0,
    ensures
        ({
            let sep = cfg.separator@;
            let ind0 = shape.indent as int;
            let cont = cont_indent(cfg.indent_style, shape);
            let r = spec_layout(items, shape, cfg);
            let st = mixed_item_start(items, w as int, sep, ind0, cont, i);
            let l = render_item(items[i]).len() as int;
            &&& 0 <= st
            &&& st + l <= r.len()
            &&& r.subrange(st, st + l) == render_item(items[i])
            &&& (i + 1 < items.len() ==> st < mixed_item_start(
                items,
                w as int,
                sep,
                ind0,
                cont,
                i + 1,
            ))
        }),
{
    let sep = cfg.separator@;
    let ind0 = shape.indent as int;
    let cont = cont_indent(cfg.indent_style, shape);
    lemma_mixed_order(items, w as int, sep, ind0, cont, i);
    let body = spec_layout_body(items, shape, cfg);
    let r = spec_layout(items, shape, cfg);
    let st = mixed_item_start(items, w as int, sep, ind0, cont, i);
    assert(body == spec_mixed_all(items, w as int, sep, ind0, cont));
    assert(r.subrange(0, body.len() as int) =~= body);
    crate::bytes::lemma_prefix_subrange(body, r, st, render_item(items[i]).len() as int);
}

/// The glue that stands between consecutive items under a fixed tactic.
pub open spec fn tactic_glue(shape: Shape, cfg: ListConfig) -> Seq<u8> {
    match cfg.tactic {
        Tactic::Horizontal => cfg.separator@,
        _ => sep_trimmed(cfg.separator@) + break_indent(cont_indent(cfg.indent_style, shape)),
    }
}

/// Order preservation: under the Horizontal and Vertical tactics — and
/// hence under whichever of the two a HorizontalVertical layout resolves
/// to — the items render in input order.  When no item renders to empty
/// text, item `i`'s rendering occurs verbatim at `item_start(.., i)` of
/// the layout, and each item's text starts strictly before the next
/// one's and ends no later than the next one begins.
pub proof fn lemma_layout_order(items: Seq<ListItem>, shape: Shape, cfg: ListConfig, i: int)
    requires
        0 <= i < items.len(),
        cfg.tactic is Horizontal || cfg.tactic is Vertical,
        forall|k: int| 0 <= k < items.len() ==> render_item(#[trigger] items[k]).len() > 0,
    ensures
        ({
            let glue = tactic_glue(shape, cfg);
            let r = spec_layout(items, shape, cfg);
            let st = item_start(items, glue, i);
            let l = render_item(items[i]).len() as int;
            &&& 0 <= st
            &&& st + l <= r.len()
            &&& r.subrange(st, st + l) == render_item(items[i])
            &&& (i + 1 < items.len() ==> st < item_start(items, glue, i + 1)
                && st + l <= item_start(items, glue, i + 1))
        }),
{
    let glue = tactic_glue(shape, cfg);
    let body = spec_layout_body(items, shape, cfg);
    let r = spec_layout(items, shape, cfg);
    let st = item_start(items, glue, i);
    let l = render_item(items[i]).len() as int;
    lemma_join_order(items, glue, i);
    assert(body == spec_join(items, glue));
    assert(r.subrange(0, body.len() as int) =~= body);
    crate::bytes::lemma_prefix_subrange(body, r, st, l);
}

/// Fallback law: under HorizontalVertical, when the single-line
/// rendering of the items does not fit the width budget at the current
/// indent, or some item's rendering is already multi-line, the layout is
/// identical to the same items under Vertical with the same shape and
/// configuration.
pub proof fn lemma_horizontal_vertical_fallback(
    items: Seq<ListItem>,
    shape: Shape,
    cfg: ListConfig,
    vcfg: ListConfig,
)
    requires
        cfg.tactic is HorizontalVertical,
        vcfg.tactic is Vertical,
        vcfg.indent_style == cfg.indent_style,
        vcfg.separator@ == cfg.separator@,
        vcfg.trailing_separator == cfg.trailing_separator,
        has_newline(spec_horizontal(items, cfg.separator@)) || !fits(
            shape.indent + spec_horizontal(items, cfg.separator@).len(),
            shape.width,
        ),
    ensures
        spec_layout(items, shape, cfg) == spec_layout(items, shape, vcfg),
{
}

/// Determinism: laying out identical items with identical shape and
/// configuration twice yields identical output.
pub proof fn lemma_layout_deterministic(
    items: Seq<ListItem>,
    shape: Shape,
    cfg: ListConfig,
    r1: Seq<u8>,
    r2: Seq<u8>,
)
    requires
        r1 == spec_layout(items, shape, cfg),
        r2 == spec_layout(items, shape, cfg),
    ensures
        r1 == r2,
{
}

impl ListItem {
    pub fn new(
        text: Vec<u8>,
        leading_comment: Option<Vec<u8>>,
        trailing_comment: Option<Vec<u8>>,
        span: Span,
    ) -> (it: ListItem)
        ensures
            it == (ListItem { text, leading_comment, trailing_comment, span }),
    {
        ListItem { text, leading_comment, trailing_comment, span }
    }
}

/// Renders one item with its captured comments around it.
pub fn render_item_text(it: &ListItem) -> (r: Vec<u8>)
    ensures
        r@ == render_item(*it),
{
    let mut r: Vec<u8> = Vec::new();
    match &it.leading_comment {
        Some(c) => {
            push_bytes(&mut r, c);
            r.push(SPACE);
        },
        None => {},
    }
    push_bytes(&mut r, &it.text);
    match &it.trailing_comment {
        Some(c) => {
            r.push(SPACE);
            push_bytes(&mut r, c);
        },
        None => {},
    }
    proof {
        assert(r@ =~= render_item(*it));
    }
    r
}

/// The separator with its trailing spaces removed.
pub fn trim_sep(sep: &Vec<u8>) -> (r: Vec<u8>)
    ensures
        r@ == sep_trimmed(sep@),
{
    let mut n = sep.len();
    proof {
        assert(sep@.take(sep@.len() as int) =~= sep@);
    }
    while n > 0 && sep[n - 1] == SPACE
        invariant
            n <= sep.len(),
            sep_trimmed(sep@) == sep_trimmed(sep@.take(n as int)),
        decreases n,
    {
        proof {
            assert(sep@.take(n as int).drop_last() =~= sep@.take(n - 1));
        }
        n = n - 1;
    }
    let r = subvec(sep, 0, n);
    proof {
        assert(sep_trimmed(sep@.take(n as int)) == sep@.take(n as int));
    }
    r
}

/// All items on one line.
fn horizontal_join(items: &Vec<ListItem>, sep: &Vec<u8>) -> (r: Vec<u8>)
    ensures
        r@ == spec_horizontal(items@, sep@),
{
    let mut out: Vec<u8> = Vec::new();
    let mut i: usize = 0;
    while i < items.len()
        invariant
            i <= items.len(),
            out@ == spec_horizontal(items@.take(i as int), sep@),
        decreases items.len() - i,
    {
        if i > 0 {
            push_bytes(&mut out, sep);
        }
        let r = render_item_text(&items[i]);
        push_bytes(&mut out, &r);
        i = i + 1;
        proof {
            assert(items@.take(i as int).drop_last() =~= items@.take(i - 1));
            assert(items@.take(i as int).last() == items@[i - 1]);
            assert(out@ =~= spec_horizontal(items@.take(i as int), sep@));
        }
    }
    proof {
        assert(items@.take(items@.len() as int) =~= items@);
    }
    out
}

/// Exactly one item per line at the continuation indent `ind`.
fn vertical_join(items: &Vec<ListItem>, tsep: &Vec<u8>, ind: usize) -> (r: Vec<u8>)
    ensures
        r@ == spec_vertical(items@, tsep@, ind as int),
{
    let mut out: Vec<u8> = Vec::new();
    let mut i: usize = 0;
    while i < items.len()
        invariant
            i <= items.len(),
            out@ == spec_vertical(items@.take(i as int), tsep@, ind as int),
        decreases items.len() - i,
    {
        if i > 0 {
            push_bytes(&mut out, tsep);
            push_break_indent(&mut out, ind);
        }
        let r = render_item_text(&items[i]);
        push_bytes(&mut out, &r);
        i = i + 1;
        proof {
            assert(items@.take(i as int).drop_last() =~= items@.take(i - 1));
            assert(items@.take(i as int).last() == items@[i - 1]);
            assert(out@ =~= spec_vertical(items@.take(i as int), tsep@, ind as int));
        }
    }
    proof {
        assert(items@.take(items@.len() as int) =~= items@);
    }
    out
}

/// Pack items greedily against the width `w`: the first item at column
/// `ind0`, continuation lines at column `ind`.
fn mixed_join(items: &Vec<ListItem>, w: usize, sep: &Vec<u8>, ind0: usize, ind: usize) -> (r:
    Vec<u8>)
    requires
        items.len() > 0,
        ind0 + render_item(items@[0]).len() <= usize::MAX,
        forall|k: int|
            0 <= k < items.len() ==> ind + render_item(#[trigger] items@[k]).len() <= usize::MAX,
    ensures
        r@ == spec_mixed_all(items@, w as int, sep@, ind0 as int, ind as int),
{
    let tsep = trim_sep(sep);
    let first = render_item_text(&items[0]);
    let mut col: usize = ind0 + first.len();
    let mut out = first;
    let mut i: usize = 1;
    while i < items.len()
        invariant
            1 <= i <= items.len(),
            tsep@ == sep_trimmed(sep@),
            forall|k: int|
                0 <= k < items.len() ==> ind + render_item(#[trigger] items@[k]).len()
                    <= usize::MAX,
            spec_mixed_all(items@, w as int, sep@, ind0 as int, ind as int) == out@ + spec_mixed(
                items@,
                i as int,
                col as int,
                w as int,
                sep@,
                ind as int,
            ),
        decreases items.len() - i,
    {
        let r = render_item_text(&items[i]);
        let on_line = col <= w && sep.len() <= w - col && r.len() <= w - col - sep.len();
        if on_line {
            push_bytes(&mut out, sep);
            push_bytes(&mut out, &r);
            col = col + sep.len() + r.len();
        } else {
            push_bytes(&mut out, &tsep);
            push_break_indent(&mut out, ind);
            push_bytes(&mut out, &r);
            col = ind + r.len();
        }
        i = i + 1;
        proof {
            assert(spec_mixed_all(items@, w as int, sep@, ind0 as int, ind as int) =~= out@
                + spec_mixed(items@, i as int, col as int, w as int, sep@, ind as int));
        }
    }
    proof {
        assert(spec_mixed_all(items@, w as int, sep@, ind0 as int, ind as int) =~= out@);
    }
    out
}

/// Decides whether a single line of `pre + n` columns fits in `w`.
fn fits_line(pre: usize, n: usize, w: WidthBudget) -> (b: bool)
    ensures
        b == fits(pre + n, w),
{
    match w {
        WidthBudget::Bounded(k) => pre <= k && n <= k - pre,
        WidthBudget::Unbounded => true,
    }
}

/// Lays out the items under the configured tactic, width budget, indent
/// style and trailing-separator policy, as one already-indented block
/// ready to splice at the call site's current column.
pub fn layout(items: &Vec<ListItem>, shape: Shape, cfg: &ListConfig) -> (r: Vec<u8>)
    requires
        cfg.indent_style is Block ==> shape.indent + INDENT_WIDTH <= usize::MAX,
        cfg.tactic is Mixed ==> forall|k: int|
            0 <= k < items.len() ==> shape.indent + INDENT_WIDTH + render_item(
                #[trigger] items@[k],
            ).len() <= usize::MAX,
    ensures
        r@ == spec_layout(items@, shape, *cfg),
{
    if items.len() == 0 {
        let r: Vec<u8> = Vec::new();
        proof {
            assert(r@ =~= spec_layout(items@, shape, *cfg));
        }
        return r;
    }
    let tsep = trim_sep(&cfg.separator);
    let cont: usize = match cfg.indent_style {
        IndentStyle::Block => shape.indent + INDENT_WIDTH,
        IndentStyle::Visual => shape.indent,
    };
    let mut body: Vec<u8> = match cfg.tactic {
        Tactic::Horizontal => horizontal_join(items, &cfg.separator),
        Tactic::Vertical => vertical_join(items, &tsep, cont),
        Tactic::Mixed => match shape.width {
            WidthBudget::Unbounded => horizontal_join(items, &cfg.separator),
            WidthBudget::Bounded(w) => mixed_join(items, w, &cfg.separator, shape.indent, cont),
        },
        Tactic::HorizontalVertical => {
            let h = horizontal_join(items, &cfg.separator);
            if !is_multiline(&h) && fits_line(shape.indent, h.len(), shape.width) {
                h
            } else {
                vertical_join(items, &tsep, cont)
            }
        },
    };
    proof {
        assert(body@ == spec_layout_body(items@, shape, *cfg));
    }
    match cfg.trailing_separator {
        SeparatorPolicy::Always => {
            push_bytes(&mut body, &tsep);
        },
        SeparatorPolicy::Never => {},
        SeparatorPolicy::MultilineOnly => {
            if is_multiline(&body) {
                push_bytes(&mut body, &tsep);
            }
        },
    }
    proof {
        assert(body@ =~= spec_layout(items@, shape, *cfg));
    }
    body
}

} // verus!
