use pretty::BoxAllocator;
use pretty::Doc;
use pretty::DocAllocator;
use pretty::DocArena;
use pretty::DocBuilder;

#[test]
fn box_allocator_builder() {
    let allocator = BoxAllocator;
    let b: DocBuilder<(), BoxAllocator> = allocator
        .text("hello")
        .append(allocator.space())
        .append(allocator.text("world"))
        .group();
    let doc = b.into_doc();
    let mut s = String::new();
    doc.render_fmt(20, &mut s).unwrap();
    assert_eq!(s, "hello world");
}

#[test]
fn box_allocator_breaks() {
    let allocator = BoxAllocator;
    let b: DocBuilder<(), BoxAllocator> = allocator
        .text("hello")
        .append(allocator.space())
        .append(allocator.text("world"))
        .group();
    let doc = b.into_doc();
    let mut s = String::new();
    doc.render_fmt(7, &mut s).unwrap();
    assert_eq!(s, "hello\nworld");
}

#[test]
fn box_allocator_concat_and_intersperse() {
    let allocator = BoxAllocator;
    let parts: Vec<DocBuilder<(), BoxAllocator>> =
        vec![allocator.text("a"), allocator.text("b"), allocator.text("c")];
    let doc = allocator.intersperse(parts, allocator.text(", ")).into_doc();
    let mut s = String::new();
    doc.render_fmt(20, &mut s).unwrap();
    assert_eq!(s, "a, b, c");

    let parts: Vec<DocBuilder<(), BoxAllocator>> =
        vec![allocator.text("a"), allocator.text("b"), allocator.text("c")];
    let doc = allocator.concat(parts).into_doc();
    let mut s = String::new();
    doc.render_fmt(20, &mut s).unwrap();
    assert_eq!(s, "abc");
}

#[test]
fn box_allocator_as_string_and_nest() {
    let allocator = BoxAllocator;
    let b: DocBuilder<(), BoxAllocator> = allocator
        .text("[")
        .append(
            allocator
                .newline()
                .append(allocator.as_string(42u64))
                .nest(2),
        )
        .append(allocator.newline())
        .append(allocator.text("]"));
    let doc = b.into_doc();
    let mut s = String::new();
    doc.render_fmt(20, &mut s).unwrap();
    assert_eq!(s, "[\n  42\n]");
}

#[test]
fn arena_builder() {
    let arena: DocArena<()> = typed_arena::Arena::new();
    let node = arena
        .text("test")
        .append(arena.space())
        .append(arena.text("test"))
        .group()
        .into_doc();
    let mut s = String::new();
    node.render_fmt(9, &mut s).unwrap();
    assert_eq!(s, "test test");
    let mut s = String::new();
    node.render_fmt(5, &mut s).unwrap();
    assert_eq!(s, "test\ntest");
}

#[test]
fn arena_intersperse_clones_separator() {
    let arena: DocArena<()> = typed_arena::Arena::new();
    let parts = vec![arena.text("x"), arena.text("y"), arena.text("z")];
    let node = arena.intersperse(parts, arena.space()).group().into_doc();
    let mut s = String::new();
    node.render_fmt(10, &mut s).unwrap();
    assert_eq!(s, "x y z");
    let mut s = String::new();
    node.render_fmt(3, &mut s).unwrap();
    assert_eq!(s, "x\ny\nz");
}

#[test]
fn arena_annotate_passes_through() {
    let arena: DocArena<u8> = typed_arena::Arena::new();
    let node = arena
        .text("a")
        .annotate(7)
        .append(arena.newline())
        .append(arena.text("b"))
        .into_doc();
    let mut s = String::new();
    node.render_fmt(10, &mut s).unwrap();
    assert_eq!(s, "a\nb");
}

#[test]
fn render_writes_bytes() {
    let doc: Doc<()> = Doc::group(
        Doc::text("hello")
            .append(Doc::space())
            .append(Doc::text("world")),
    );
    let mut out: Vec<u8> = Vec::new();
    doc.render(80, &mut out).unwrap();
    assert_eq!(String::from_utf8(out).unwrap(), "hello world");
}

struct FailingSink;

impl std::io::Write for FailingSink {
    fn write(&mut self, _buf: &[u8]) -> std::io::Result<usize> {
        Err(std::io::Error::new(std::io::ErrorKind::Other, "sink failure"))
    }

    fn flush(&mut self) -> std::io::Result<()> {
        Ok(())
    }
}

#[test]
fn render_reports_sink_error() {
    let doc: Doc<()> = Doc::text("abc");
    let mut sink = FailingSink;
    let err = doc.render(80, &mut sink).unwrap_err();
    assert_eq!(err.to_string(), "sink failure");
}

#[test]
fn pretty_lays_out_through_to_string() {
    let doc: Doc<()> = Doc::group(
        Doc::text("hello")
            .append(Doc::space())
            .append(Doc::text("world")),
    );
    assert_eq!(doc.pretty(80).to_string(), "hello world");
    assert_eq!(doc.pretty(8).to_string(), "hello\nworld");
}

struct FailingFmtSink;

impl std::fmt::Write for FailingFmtSink {
    fn write_str(&mut self, _s: &str) -> std::fmt::Result {
        Err(std::fmt::Error)
    }
}

#[test]
fn render_fmt_reports_sink_error() {
    let doc: Doc<()> = Doc::text("abc");
    let mut sink = FailingFmtSink;
    assert!(doc.render_fmt(80, &mut sink).is_err());
}
