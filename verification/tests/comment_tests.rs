use fmtcore::comment::{combine, CommentMergeError};
use fmtcore::shape::{Shape, WidthBudget};
use fmtcore::source::SnippetProvider;
use fmtcore::span::Span;

fn text(r: Vec<u8>) -> String {
    String::from_utf8(r).unwrap()
}

#[test]
fn whitespace_gap_joins_on_one_line() {
    let p = SnippetProvider::new(b"pub fn".to_vec());
    let out = combine(
        &p,
        &b"pub".to_vec(),
        &b"fn".to_vec(),
        Span::new(3, 4),
        Shape::new(WidthBudget::Bounded(100), 0),
        true,
    )
    .unwrap();
    assert_eq!(text(out), "pub fn");
}

#[test]
fn narrow_width_forces_two_lines() {
    let p = SnippetProvider::new(b"pub fn".to_vec());
    let out = combine(
        &p,
        &b"pub".to_vec(),
        &b"fn".to_vec(),
        Span::new(3, 4),
        Shape::new(WidthBudget::Bounded(4), 2),
        true,
    )
    .unwrap();
    assert_eq!(text(out), "pub\n  fn");
}

#[test]
fn single_line_not_preferred_forces_two_lines() {
    let p = SnippetProvider::new(b"pub fn".to_vec());
    let out = combine(
        &p,
        &b"pub".to_vec(),
        &b"fn".to_vec(),
        Span::new(3, 4),
        Shape::new(WidthBudget::Bounded(100), 0),
        false,
    )
    .unwrap();
    assert_eq!(text(out), "pub\nfn");
}

#[test]
fn line_comment_in_gap_is_reproduced() {
    let p = SnippetProvider::new(b"pub // c\nfn".to_vec());
    let out = combine(
        &p,
        &b"pub".to_vec(),
        &b"fn".to_vec(),
        Span::new(3, 9),
        Shape::new(WidthBudget::Bounded(100), 0),
        true,
    )
    .unwrap();
    assert_eq!(text(out), "pub\n// c\nfn");
}

#[test]
fn unbounded_width_still_breaks_on_comment() {
    let p = SnippetProvider::new(b"a /* c */ b".to_vec());
    let out = combine(
        &p,
        &b"a".to_vec(),
        &b"b".to_vec(),
        Span::new(1, 10),
        Shape::new(WidthBudget::Unbounded, 0),
        true,
    )
    .unwrap();
    assert_eq!(text(out), "a\n/* c */\nb");
}

#[test]
fn code_in_gap_cannot_be_merged() {
    let p = SnippetProvider::new(b"pub x fn".to_vec());
    let r = combine(
        &p,
        &b"pub".to_vec(),
        &b"fn".to_vec(),
        Span::new(3, 6),
        Shape::new(WidthBudget::Bounded(100), 0),
        true,
    );
    assert_eq!(r, Err(CommentMergeError));
}

#[test]
fn snippet_provider_reads_span_text() {
    let p = SnippetProvider::new(b"pub fn foo".to_vec());
    assert_eq!(text(p.text_of(Span::new(4, 6))), "fn");
    assert_eq!(p.len(), 10);
}

#[test]
fn span_between_is_the_gap() {
    let a = Span::new(0, 3);
    let b = Span::new(7, 9);
    assert_eq!(a.between(b), Span::new(3, 7));
}

#[test]
fn span_before_skips_comments() {
    let p = SnippetProvider::new(b"/* fn */ fn".to_vec());
    let pos = p.span_before(Span::new(0, 11), &b"fn".to_vec());
    assert_eq!(pos, Some(9));
}
