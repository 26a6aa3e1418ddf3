use fmtcore::header::{format_header, HeaderPart, Safety, Visibility, VisibilityKind};
use fmtcore::shape::{Shape, WidthBudget};
use fmtcore::source::SnippetProvider;
use fmtcore::span::Span;

fn provider(src: &[u8]) -> SnippetProvider {
    SnippetProvider::new(src.to_vec())
}

fn shape() -> Shape {
    Shape::new(WidthBudget::Bounded(100), 0)
}

fn text(r: Vec<u8>) -> String {
    String::from_utf8(r).unwrap()
}

#[test]
fn single_line_default() {
    // Inherited visibility and default safety are dropped; the rest joins
    // on one line.
    let src = b"fn foo";
    let p = provider(src);
    let vis = HeaderPart::visibility(&Visibility {
        kind: VisibilityKind::Inherited,
        span: Span::new(0, 0),
    })
    .unwrap();
    let safety = HeaderPart::safety(Safety::Default);
    let kw = HeaderPart::keyword(&p, b"fn".to_vec(), Span::new(0, 2)).unwrap();
    let ident = HeaderPart::ident(b"foo".to_vec(), Span::new(3, 6));
    let out = format_header(&p, shape(), vec![vis, safety, kw, ident]);
    assert_eq!(text(out), "fn foo");
}

#[test]
fn visibility_public() {
    let part = HeaderPart::visibility(&Visibility {
        kind: VisibilityKind::Public,
        span: Span::new(0, 3),
    })
    .unwrap();
    assert_eq!(text(part.text), "pub");
}

#[test]
fn visibility_inherited_is_empty() {
    let part = HeaderPart::visibility(&Visibility {
        kind: VisibilityKind::Inherited,
        span: Span::new(0, 0),
    })
    .unwrap();
    assert_eq!(text(part.text), "");
}

#[test]
fn visibility_restricted_crate() {
    let part = HeaderPart::visibility(&Visibility {
        kind: VisibilityKind::Restricted {
            segments: vec![b"crate".to_vec()],
            is_global: false,
        },
        span: Span::new(0, 10),
    })
    .unwrap();
    assert_eq!(text(part.text), "pub(crate)");
}

#[test]
fn visibility_restricted_path() {
    let part = HeaderPart::visibility(&Visibility {
        kind: VisibilityKind::Restricted {
            segments: vec![b"some".to_vec(), b"mod".to_vec()],
            is_global: false,
        },
        span: Span::new(0, 17),
    })
    .unwrap();
    assert_eq!(text(part.text), "pub(in some::mod)");
}

#[test]
fn visibility_restricted_super() {
    let part = HeaderPart::visibility(&Visibility {
        kind: VisibilityKind::Restricted {
            segments: vec![b"super".to_vec()],
            is_global: false,
        },
        span: Span::new(0, 10),
    })
    .unwrap();
    assert_eq!(text(part.text), "pub(super)");
}

#[test]
fn visibility_global_path_consumes_root() {
    let part = HeaderPart::visibility(&Visibility {
        kind: VisibilityKind::Restricted {
            segments: vec![b"".to_vec(), b"some".to_vec()],
            is_global: true,
        },
        span: Span::new(0, 12),
    })
    .unwrap();
    assert_eq!(text(part.text), "pub(in some)");
}

#[test]
fn visibility_global_crate_path_keeps_keyword_form() {
    let part = HeaderPart::visibility(&Visibility {
        kind: VisibilityKind::Restricted {
            segments: vec![b"".to_vec(), b"crate".to_vec()],
            is_global: true,
        },
        span: Span::new(0, 10),
    })
    .unwrap();
    assert_eq!(text(part.text), "pub(crate)");
}

#[test]
fn visibility_global_path_missing_root_is_rejected() {
    let r = HeaderPart::visibility(&Visibility {
        kind: VisibilityKind::Restricted {
            segments: vec![],
            is_global: true,
        },
        span: Span::new(0, 0),
    });
    assert!(r.is_err());
}

#[test]
fn safety_unsafe() {
    let part = HeaderPart::safety(Safety::Unsafe(Span::new(4, 10)));
    assert_eq!(text(part.text), "unsafe");
    assert_eq!(part.span, Span::new(4, 10));
}

#[test]
fn safety_safe() {
    let part = HeaderPart::safety(Safety::Safe(Span::new(4, 8)));
    assert_eq!(text(part.text), "safe");
}

#[test]
fn safety_default_is_empty() {
    let part = HeaderPart::safety(Safety::Default);
    assert_eq!(text(part.text), "");
}

#[test]
fn keyword_gets_tight_span() {
    // The span points at `/* k */ fn x`; the fragment must carry the
    // keyword's own sub-span, not the enclosing one.
    let src = b"/* k */ fn x";
    let p = provider(src);
    let part = HeaderPart::keyword(&p, b"fn".to_vec(), Span::new(0, 12)).unwrap();
    assert_eq!(text(part.text), "fn");
    assert_eq!(part.span, Span::new(8, 10));
}

#[test]
fn keyword_not_found_inside_comment() {
    let src = b"/* fn */";
    let p = provider(src);
    assert!(HeaderPart::keyword(&p, b"fn".to_vec(), Span::new(0, 8)).is_none());
}

#[test]
fn comment_in_gap_forces_break() {
    // Fragments "pub" and "unsafe" with `/* x */` in the gap: the
    // discovered comment forces a break, one line each.
    let src = b"pub /* x */ unsafe";
    let p = provider(src);
    let a = HeaderPart::new(b"pub".to_vec(), Span::new(0, 3));
    let b = HeaderPart::new(b"unsafe".to_vec(), Span::new(12, 18));
    let out = format_header(&p, shape(), vec![a, b]);
    assert_eq!(text(out), "pub\n/* x */\nunsafe");
}

#[test]
fn comment_break_is_indented() {
    let src = b"pub /* x */ unsafe";
    let p = provider(src);
    let a = HeaderPart::new(b"pub".to_vec(), Span::new(0, 3));
    let b = HeaderPart::new(b"unsafe".to_vec(), Span::new(12, 18));
    let out = format_header(&p, Shape::new(WidthBudget::Bounded(100), 4), vec![a, b]);
    assert_eq!(text(out), "pub\n    /* x */\n    unsafe");
}

#[test]
fn two_comments_kept_in_order() {
    let src = b"pub // a\n/* b */ fn";
    let p = provider(src);
    let a = HeaderPart::new(b"pub".to_vec(), Span::new(0, 3));
    let b = HeaderPart::new(b"fn".to_vec(), Span::new(17, 19));
    let out = text(format_header(&p, shape(), vec![a, b]));
    assert_eq!(out, "pub\n// a\n/* b */\nfn");
    let first = out.find("// a").unwrap();
    let second = out.find("/* b */").unwrap();
    assert!(first < second);
}

#[test]
fn unclassifiable_gap_falls_back_to_space_join() {
    // The gap holds code, not comments; the merge fails and the
    // assembler joins with a single space.
    let src = b"pub x unsafe";
    let p = provider(src);
    let a = HeaderPart::new(b"pub".to_vec(), Span::new(0, 3));
    let b = HeaderPart::new(b"unsafe".to_vec(), Span::new(6, 12));
    let out = format_header(&p, shape(), vec![a, b]);
    assert_eq!(text(out), "pub unsafe");
}

#[test]
fn unterminated_block_comment_falls_back() {
    let src = b"pub /* x unsafe";
    let p = provider(src);
    let a = HeaderPart::new(b"pub".to_vec(), Span::new(0, 3));
    let b = HeaderPart::new(b"unsafe".to_vec(), Span::new(9, 15));
    let out = format_header(&p, shape(), vec![a, b]);
    assert_eq!(text(out), "pub unsafe");
}

#[test]
fn empty_fragment_list_renders_empty() {
    let p = provider(b"");
    let out = format_header(&p, shape(), vec![]);
    assert_eq!(text(out), "");
}

#[test]
fn all_empty_fragments_render_empty() {
    let p = provider(b"struct");
    let vis = HeaderPart::visibility(&Visibility {
        kind: VisibilityKind::Inherited,
        span: Span::new(0, 0),
    })
    .unwrap();
    let safety = HeaderPart::safety(Safety::Default);
    let out = format_header(&p, shape(), vec![vis, safety]);
    assert_eq!(text(out), "");
}

#[test]
fn empty_fragment_contributes_no_gap() {
    // The gap is computed between the two nonempty neighbours; the
    // dropped fragment's placeholder span never enters it.
    let src = b"pub fn";
    let p = provider(src);
    let a = HeaderPart::new(b"pub".to_vec(), Span::new(0, 3));
    let b = HeaderPart::safety(Safety::Default);
    let c = HeaderPart::new(b"fn".to_vec(), Span::new(4, 6));
    let out = format_header(&p, shape(), vec![a, b, c]);
    assert_eq!(text(out), "pub fn");
}

#[test]
fn formatting_is_idempotent() {
    // The same fragments, source and shape give the same text, twice.
    let src = b"pub /* x */ unsafe fn foo";
    let build = || {
        let p = provider(src);
        let a = HeaderPart::new(b"pub".to_vec(), Span::new(0, 3));
        let b = HeaderPart::new(b"unsafe".to_vec(), Span::new(12, 18));
        let c = HeaderPart::new(b"fn".to_vec(), Span::new(19, 21));
        let d = HeaderPart::new(b"foo".to_vec(), Span::new(22, 25));
        text(format_header(&p, shape(), vec![a, b, c, d]))
    };
    assert_eq!(build(), build());
}

#[test]
fn fragments_render_in_input_order() {
    let src = b"pub unsafe fn foo";
    let p = provider(src);
    let a = HeaderPart::new(b"pub".to_vec(), Span::new(0, 3));
    let b = HeaderPart::new(b"unsafe".to_vec(), Span::new(4, 10));
    let c = HeaderPart::new(b"fn".to_vec(), Span::new(11, 13));
    let d = HeaderPart::new(b"foo".to_vec(), Span::new(14, 17));
    let out = text(format_header(&p, shape(), vec![a, b, c, d]));
    assert_eq!(out, "pub unsafe fn foo");
    assert!(out.find("pub").unwrap() < out.find("unsafe").unwrap());
    assert!(out.find("unsafe").unwrap() < out.find("fn f").unwrap());
    assert!(out.find("fn f").unwrap() < out.find("foo").unwrap());
}
