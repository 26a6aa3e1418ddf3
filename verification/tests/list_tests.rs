use fmtcore::list::{layout, IndentStyle, ListConfig, ListItem, SeparatorPolicy, Tactic};
use fmtcore::shape::{Shape, WidthBudget};
use fmtcore::span::Span;

fn item(s: &[u8]) -> ListItem {
    ListItem::new(s.to_vec(), None, None, Span::new(0, 0))
}

fn config(tactic: Tactic, style: IndentStyle, policy: SeparatorPolicy) -> ListConfig {
    ListConfig {
        tactic,
        indent_style: style,
        separator: b", ".to_vec(),
        trailing_separator: policy,
    }
}

fn text(r: Vec<u8>) -> String {
    String::from_utf8(r).unwrap()
}

#[test]
fn mixed_wraps_at_width() {
    // Width sized to fit exactly the first two items on one line: the
    // third moves to an indented continuation line.
    let items = vec![item(b"a"), item(b"bb"), item(b"ccc")];
    let cfg = config(Tactic::Mixed, IndentStyle::Block, SeparatorPolicy::Never);
    let shape = Shape::new(WidthBudget::Bounded(5), 0);
    let out = text(layout(&items, shape, &cfg));
    assert_eq!(out, "a, bb,\n    ccc");
    let lines: Vec<&str> = out.lines().collect();
    assert!(lines[0].contains("a") && lines[0].contains("bb") && !lines[0].contains("ccc"));
    assert!(lines[1].contains("ccc"));
}

#[test]
fn mixed_visual_indent_wraps_under_first_item() {
    let items = vec![item(b"a"), item(b"bb"), item(b"ccc")];
    let cfg = config(Tactic::Mixed, IndentStyle::Visual, SeparatorPolicy::Never);
    let shape = Shape::new(WidthBudget::Bounded(7), 2);
    // Column 2 + "a" is 3; ", bb" ends at 7; ", ccc" would need 12.
    let out = text(layout(&items, shape, &cfg));
    assert_eq!(out, "a, bb,\n  ccc");
}

#[test]
fn mixed_unbounded_width_stays_on_one_line() {
    let items = vec![item(b"a"), item(b"bb"), item(b"ccc")];
    let cfg = config(Tactic::Mixed, IndentStyle::Block, SeparatorPolicy::Never);
    let shape = Shape::new(WidthBudget::Unbounded, 0);
    assert_eq!(text(layout(&items, shape, &cfg)), "a, bb, ccc");
}

#[test]
fn horizontal_is_unconditional() {
    let items = vec![item(b"aaaa"), item(b"bbbb")];
    let cfg = config(Tactic::Horizontal, IndentStyle::Block, SeparatorPolicy::Never);
    let shape = Shape::new(WidthBudget::Bounded(3), 0);
    assert_eq!(text(layout(&items, shape, &cfg)), "aaaa, bbbb");
}

#[test]
fn vertical_is_unconditional() {
    let items = vec![item(b"a"), item(b"b")];
    let cfg = config(Tactic::Vertical, IndentStyle::Visual, SeparatorPolicy::Never);
    let shape = Shape::new(WidthBudget::Bounded(100), 0);
    assert_eq!(text(layout(&items, shape, &cfg)), "a,\nb");
}

#[test]
fn horizontal_vertical_takes_one_line_when_it_fits() {
    let items = vec![item(b"a"), item(b"bb")];
    let cfg = config(
        Tactic::HorizontalVertical,
        IndentStyle::Block,
        SeparatorPolicy::Never,
    );
    let shape = Shape::new(WidthBudget::Bounded(10), 0);
    assert_eq!(text(layout(&items, shape, &cfg)), "a, bb");
}

#[test]
fn horizontal_vertical_falls_back_to_vertical() {
    // The combined single-line width exceeds the budget, so the layout
    // is identical to the same items under Vertical.
    let items = vec![item(b"aaaa"), item(b"bbbb")];
    let shape = Shape::new(WidthBudget::Bounded(5), 0);
    let hv = config(
        Tactic::HorizontalVertical,
        IndentStyle::Visual,
        SeparatorPolicy::Never,
    );
    let v = config(Tactic::Vertical, IndentStyle::Visual, SeparatorPolicy::Never);
    let items2 = vec![item(b"aaaa"), item(b"bbbb")];
    assert_eq!(
        text(layout(&items, shape, &hv)),
        text(layout(&items2, shape, &v))
    );
}

#[test]
fn horizontal_vertical_counts_the_indent() {
    // Four columns of indent leave too little room for the five-column
    // single line, so the list goes vertical.
    let items = vec![item(b"a"), item(b"bb")];
    let cfg = config(
        Tactic::HorizontalVertical,
        IndentStyle::Visual,
        SeparatorPolicy::Never,
    );
    let shape = Shape::new(WidthBudget::Bounded(8), 4);
    assert_eq!(text(layout(&items, shape, &cfg)), "a,\n    bb");
}

#[test]
fn trailing_separator_always() {
    let items = vec![item(b"a"), item(b"bb")];
    let cfg = config(Tactic::Horizontal, IndentStyle::Block, SeparatorPolicy::Always);
    let shape = Shape::new(WidthBudget::Bounded(100), 0);
    assert_eq!(text(layout(&items, shape, &cfg)), "a, bb,");
}

#[test]
fn trailing_separator_never() {
    let items = vec![item(b"a"), item(b"bb")];
    let cfg = config(Tactic::Vertical, IndentStyle::Visual, SeparatorPolicy::Never);
    let shape = Shape::new(WidthBudget::Bounded(100), 0);
    assert_eq!(text(layout(&items, shape, &cfg)), "a,\nbb");
}

#[test]
fn trailing_separator_multiline_only_on_one_line() {
    let items = vec![item(b"a"), item(b"bb")];
    let cfg = config(
        Tactic::Horizontal,
        IndentStyle::Block,
        SeparatorPolicy::MultilineOnly,
    );
    let shape = Shape::new(WidthBudget::Bounded(100), 0);
    assert_eq!(text(layout(&items, shape, &cfg)), "a, bb");
}

#[test]
fn trailing_separator_multiline_only_on_several_lines() {
    let items = vec![item(b"a"), item(b"bb")];
    let cfg = config(
        Tactic::Vertical,
        IndentStyle::Visual,
        SeparatorPolicy::MultilineOnly,
    );
    let shape = Shape::new(WidthBudget::Bounded(100), 0);
    assert_eq!(text(layout(&items, shape, &cfg)), "a,\nbb,");
}

#[test]
fn separator_without_trailing_space_is_kept_at_line_ends() {
    let items = vec![item(b"a"), item(b"b")];
    let cfg = ListConfig {
        tactic: Tactic::Vertical,
        indent_style: IndentStyle::Visual,
        separator: b";".to_vec(),
        trailing_separator: SeparatorPolicy::Never,
    };
    let shape = Shape::new(WidthBudget::Bounded(100), 0);
    assert_eq!(text(layout(&items, shape, &cfg)), "a;\nb");
}

#[test]
fn all_space_separator_trims_to_nothing_at_line_ends() {
    let items = vec![item(b"a"), item(b"b")];
    let cfg = ListConfig {
        tactic: Tactic::Vertical,
        indent_style: IndentStyle::Visual,
        separator: b"  ".to_vec(),
        trailing_separator: SeparatorPolicy::Never,
    };
    let shape = Shape::new(WidthBudget::Bounded(100), 0);
    assert_eq!(text(layout(&items, shape, &cfg)), "a\nb");
}

#[test]
fn empty_list_renders_empty() {
    let items: Vec<ListItem> = vec![];
    let cfg = config(Tactic::Mixed, IndentStyle::Block, SeparatorPolicy::Always);
    let shape = Shape::new(WidthBudget::Bounded(10), 0);
    assert_eq!(text(layout(&items, shape, &cfg)), "");
}

#[test]
fn item_comments_stay_with_their_item() {
    let items = vec![
        ListItem::new(
            b"x".to_vec(),
            Some(b"/* l */".to_vec()),
            Some(b"// t".to_vec()),
            Span::new(0, 0),
        ),
        item(b"y"),
    ];
    let cfg = config(Tactic::Vertical, IndentStyle::Visual, SeparatorPolicy::Never);
    let shape = Shape::new(WidthBudget::Bounded(100), 0);
    let out = text(layout(&items, shape, &cfg));
    assert_eq!(out, "/* l */ x // t,\ny");
    let lead = out.find("/* l */").unwrap();
    let own = out.find("x").unwrap();
    let trail = out.find("// t").unwrap();
    assert!(lead < own && own < trail);
}

#[test]
fn multiline_item_forces_vertical_fallback() {
    // An item whose rendering already contains a line break keeps
    // HorizontalVertical from taking the single-line form.
    let items = vec![item(b"a\nb"), item(b"c")];
    let cfg = config(
        Tactic::HorizontalVertical,
        IndentStyle::Visual,
        SeparatorPolicy::Never,
    );
    let shape = Shape::new(WidthBudget::Bounded(100), 0);
    assert_eq!(text(layout(&items, shape, &cfg)), "a\nb,\nc");
}

#[test]
fn layout_is_idempotent() {
    let cfg = config(Tactic::Mixed, IndentStyle::Block, SeparatorPolicy::Always);
    let shape = Shape::new(WidthBudget::Bounded(5), 0);
    let run = || {
        let items = vec![item(b"a"), item(b"bb"), item(b"ccc")];
        text(layout(&items, shape, &cfg))
    };
    assert_eq!(run(), run());
}

#[test]
fn items_render_in_input_order() {
    let items = vec![item(b"first"), item(b"second"), item(b"third")];
    let cfg = config(Tactic::Mixed, IndentStyle::Block, SeparatorPolicy::Never);
    let shape = Shape::new(WidthBudget::Bounded(10), 0);
    let out = text(layout(&items, shape, &cfg));
    assert!(out.find("first").unwrap() < out.find("second").unwrap());
    assert!(out.find("second").unwrap() < out.find("third").unwrap());
}
