use pretty::BoxDoc;
use pretty::Doc;

fn render_str(doc: &Doc<()>, width: usize) -> String {
    let mut s = String::new();
    doc.render_fmt(width, &mut s).unwrap();
    s
}

#[test]
fn box_doc_inference() {
    let doc = Doc::<()>::group(
        Doc::text("test")
            .append(Doc::space())
            .append(Doc::text("test")),
    );

    assert_eq!(render_str(&doc, 70), "test test");
}

#[test]
fn forced_newline() {
    let doc = Doc::<()>::group(
        Doc::text("test")
            .append(Doc::newline())
            .append(Doc::text("test")),
    );

    assert_eq!(render_str(&doc, 70), "test\ntest");
}

#[test]
fn space_do_not_reset_pos() {
    let doc = Doc::<()>::group(Doc::text("test").append(Doc::space()))
        .append(Doc::text("test"))
        .append(Doc::group(Doc::space()).append(Doc::text("test")));

    assert_eq!(render_str(&doc, 9), "test test\ntest");
}

// Tests that the `Doc::newline()` does not cause the rest of document to
// think that it fits on a single line but instead breaks on the
// `Doc::space()` to fit with 6 columns.
#[test]
fn newline_does_not_cause_next_line_to_be_to_long() {
    let doc = Doc::<()>::group(
        Doc::text("test").append(Doc::newline()).append(
            Doc::text("test")
                .append(Doc::space())
                .append(Doc::text("test")),
        ),
    );

    assert_eq!(render_str(&doc, 6), "test\ntest\ntest");
}

#[test]
fn block() {
    let doc = Doc::<()>::group(
        Doc::text("{")
            .append(
                Doc::space()
                    .append(Doc::text("test"))
                    .append(Doc::space())
                    .append(Doc::text("test"))
                    .nest(2),
            )
            .append(Doc::space())
            .append(Doc::text("}")),
    );

    assert_eq!(render_str(&doc, 5), "{\n  test\n  test\n}");
}

#[test]
fn annotation_no_panic() {
    let doc = Doc::group(
        Doc::text("test")
            .annotate(())
            .append(Doc::newline())
            .annotate(())
            .append(Doc::text("test")),
    );

    assert_eq!(render_str(&doc, 70), "test\ntest");
}

fn number_list() -> Doc<()> {
    Doc::group(
        Doc::text("(")
            .append(
                Doc::intersperse(
                    vec![Doc::text("1"), Doc::text("2"), Doc::text("3")],
                    Doc::space(),
                )
                .nest(1),
            )
            .append(Doc::text(")")),
    )
}

#[test]
fn single_atom() {
    assert_eq!(render_str(&Doc::text("5"), 10), "5");
}

#[test]
fn list_fits() {
    assert_eq!(render_str(&number_list(), 10), "(1 2 3)");
}

#[test]
fn list_breaks() {
    assert_eq!(render_str(&number_list(), 5), "(1\n 2\n 3)");
}

#[test]
fn as_string_from_number() {
    let doc: Doc<()> = Doc::as_string(5u32);
    assert_eq!(render_str(&doc, 10), "5");
}

#[test]
fn concat_folds_left() {
    let doc: Doc<()> = Doc::concat(vec![Doc::text("a"), Doc::text("b"), Doc::text("c")]);
    assert_eq!(render_str(&doc, 10), "abc");
}

#[test]
fn intersperse_none_and_one() {
    let empty: Doc<()> = Doc::intersperse(vec![], Doc::text(", "));
    assert_eq!(render_str(&empty, 10), "");
    let single: Doc<()> = Doc::intersperse(vec![Doc::text("a")], Doc::text(", "));
    assert_eq!(render_str(&single, 10), "a");
}

#[test]
fn nil_is_append_identity() {
    let left: Doc<()> = Doc::nil().append(Doc::text("x"));
    let right: Doc<()> = Doc::text("x").append(Doc::nil());
    assert_eq!(render_str(&left, 10), "x");
    assert_eq!(render_str(&right, 10), "x");
}

#[test]
fn nest_zero_changes_nothing() {
    let plain: Doc<()> = Doc::text("a").append(Doc::space()).append(Doc::text("b"));
    let nested = plain.duplicate().nest(0);
    assert_eq!(render_str(&plain, 1), render_str(&nested, 1));
    assert_eq!(render_str(&nested, 1), "a\nb");
}

#[test]
fn flat_space_may_trail() {
    let doc = Doc::<()>::group(Doc::text("a").append(Doc::space()));
    assert_eq!(render_str(&doc, 10), "a ");
}

#[test]
fn width_counts_bytes_not_chars() {
    // Two two-byte characters: four bytes of text, so "\u{e9}\u{e9} x" needs
    // six columns even though it shows four characters.
    let make = || {
        Doc::<()>::group(
            Doc::text("\u{e9}\u{e9}")
                .append(Doc::space())
                .append(Doc::text("x")),
        )
    };
    assert_eq!(render_str(&make(), 6), "\u{e9}\u{e9} x");
    assert_eq!(render_str(&make(), 5), "\u{e9}\u{e9}\nx");
}

#[test]
fn deep_nesting_indents_each_break() {
    let inner: Doc<()> = Doc::newline().append(Doc::text("b")).nest(2);
    let doc = Doc::text("a").append(inner).append(Doc::newline()).append(Doc::text("c"));
    assert_eq!(render_str(&doc, 80), "a\n  b\nc");
}

#[test]
fn union_picks_left_when_it_fits() {
    let make = || {
        Doc::<()>::Union(
            BoxDoc::new(Doc::text("aaaa")),
            BoxDoc::new(Doc::text("b")),
        )
    };
    assert_eq!(render_str(&make(), 4), "aaaa");
    assert_eq!(render_str(&make(), 3), "b");
}

#[test]
fn block_indents_only_at_fresh_indent() {
    // At the start the indent in force equals the pending indent (both
    // zero), so the block adds its offset.
    let fresh: Doc<()> = Doc::Block(
        2,
        BoxDoc::new(Doc::newline().append(Doc::text("y"))),
    );
    assert_eq!(render_str(&Doc::text("x").append(fresh), 80), "x\n  y");
    // Under a plain nest the pending indent differs from the indent in
    // force, so the block adds nothing.
    let stale: Doc<()> = Doc::Block(
        2,
        BoxDoc::new(Doc::newline().append(Doc::text("y"))),
    )
    .nest(1);
    assert_eq!(render_str(&Doc::text("x").append(stale), 80), "x\n y");
}

#[test]
fn output_has_no_carriage_return_or_tab() {
    let doc = Doc::<()>::group(
        Doc::text("{")
            .append(
                Doc::space()
                    .append(Doc::text("alpha"))
                    .append(Doc::space())
                    .append(Doc::text("beta"))
                    .nest(4),
            )
            .append(Doc::space())
            .append(Doc::text("}")),
    );
    let out = render_str(&doc, 3);
    assert!(!out.contains('\r'));
    assert!(!out.contains('\t'));
}

#[test]
fn flat_layout_length_adds_up() {
    // Flat layout: the two texts (5 + 5 bytes) plus one space.
    let doc = Doc::<()>::group(
        Doc::text("alpha")
            .append(Doc::space())
            .append(Doc::text("gamma")),
    );
    let out = render_str(&doc, 40);
    assert_eq!(out.len(), 11);
    // A hard break inside charges a line feed plus the indent of two.
    let doc = Doc::<()>::text("ab")
        .append(Doc::newline().append(Doc::text("cd")).nest(2));
    let out = render_str(&doc, 40);
    assert_eq!(out.len(), 2 + 1 + 2 + 2);
}

#[test]
fn union_left_renders_flat() {
    // The fitting left alternative runs in flat mode even in a breaking
    // context: its soft separator stays a space.
    let fits = Doc::<()>::Union(
        BoxDoc::new(Doc::text("a").append(Doc::space()).append(Doc::text("b"))),
        BoxDoc::new(Doc::text("y")),
    );
    assert_eq!(render_str(&fits, 10), "a b");
    // The right alternative keeps the enclosing (break) mode instead.
    let breaks = Doc::<()>::Union(
        BoxDoc::new(Doc::text("too wide here")),
        BoxDoc::new(Doc::text("a").append(Doc::space()).append(Doc::text("b"))),
    );
    assert_eq!(render_str(&breaks, 5), "a\nb");
}

#[test]
fn documents_compare_equal_by_structure() {
    let a: Doc<()> = Doc::text("x").append(Doc::space());
    let b: Doc<()> = Doc::text("x").append(Doc::space());
    assert_eq!(a, b);
    assert_ne!(a, Doc::text("x"));
}

#[test]
fn try_weight_measures_the_tree() {
    // One Append node, two Text leaves of one character each: the texts
    // weigh 1 + 4 bytes-per-character apiece.
    let doc: Doc<()> = Doc::text("a").append(Doc::text("b"));
    assert_eq!(doc.try_weight(), Some(1 + 5 + 5));
    // A nest's offset is part of the measure.
    let doc: Doc<()> = Doc::space().nest(3);
    assert_eq!(doc.try_weight(), Some(1 + 3 + 1));
    // An offset at the machine limit cannot fit alongside the rest.
    let doc: Doc<()> = Doc::space().nest(usize::MAX);
    assert_eq!(doc.try_weight(), None);
}
