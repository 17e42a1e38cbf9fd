use lead_build::snippet::format_snippet;

const COLOR_START: &str = "\x1b[1;31m";
const COLOR_END: &str = "\x1b[0m";

fn render(source: &str, start: usize, end: usize, color: bool) -> String {
    format_snippet(source, start, end, "", color)
}

#[test]
fn no_color_prints_plain_lines_with_no_marker() {
    let source = "let a = 1;\nlet b = a + a;\nc\n";
    let start = source.find("a + a").unwrap();
    let out = render(source, start, start + 1, false);
    assert_eq!(out, "1 | let a = 1;\n2 | let b = a + a;\n3 | c\n");
    assert!(!out.contains('^'));
    assert!(!out.contains('\x1b'));
}

#[test]
fn color_highlights_the_span_inline() {
    let source = "let a = 1;\nlet b = a + a;\nc\n";
    let start = source.find("a + a").unwrap();
    let out = render(source, start, start + 1, true);
    assert!(out.contains(COLOR_START));
    assert!(out.contains(COLOR_END));
    assert!(out.contains("let b = \x1b[1;31ma\x1b[0m + a;"));
    assert!(!out.contains('^'));
}

#[test]
fn span_at_start_of_file_has_no_line_before() {
    let source = "bad\nnext\n";
    let out = render(source, 0, 3, false);
    assert_eq!(out, "1 | bad\n2 | next\n");
}

#[test]
fn span_at_end_of_file_has_no_line_after() {
    let source = "prev\nbad";
    let start = source.find("bad").unwrap();
    let out = render(source, start, source.len(), false);
    assert_eq!(out, "1 | prev\n2 | bad\n");
}

#[test]
fn small_gap_multiline_span_is_shown_contiguously() {
    let source = "a\nb\nc\nd\ne\n";
    let b = source.find('b').unwrap();
    let d = source.find('d').unwrap();
    let out = render(source, b, d + 1, false);
    assert!(!out.contains("..."));
    assert!(out.contains("1 | a"));
    assert!(out.contains("5 | e"));
}

#[test]
fn large_gap_multiline_span_is_elided() {
    let source = (0..20)
        .map(|i| format!("line{i}"))
        .collect::<Vec<_>>()
        .join("\n");
    let start = source.find("line1\n").unwrap();
    let end = source.find("line18").unwrap();
    let out = render(&source, start, end + 1, false);
    assert!(out.contains("..."));
    assert!(out.contains("line0"));
    assert!(out.contains("line19"));
    assert!(!out.contains("line9\n"));
}

#[test]
fn snippet_indent_prefixes_every_line_and_the_ellipsis() {
    let source = "l0\nl1\nl2\nl3\nl4\nl5\nl6\nl7\n";
    let start = source.find("l1").unwrap();
    let end = source.find("l7").unwrap();
    let out = format_snippet(source, start, end + 1, "  ", false);
    assert_eq!(out, "  1 | l0\n  2 | l1\n  3 | l2\n  ...\n  7 | l6\n  8 | l7\n  9 | \n");
}

#[test]
fn snippet_numbers_are_right_aligned_to_the_widest() {
    let source = "a\nb\nc\nd\ne\nf\ng\nh\ni\nj\nk\n";
    let start = source.find('j').unwrap();
    let out = render(source, start, start + 1, false);
    assert_eq!(out, " 9 | i\n10 | j\n11 | k\n");
}

#[test]
fn snippet_highlight_spans_several_lines() {
    let source = "ab\ncd\n";
    let out = render(source, 1, 4, true);
    assert_eq!(out, "1 | a\x1b[1;31mb\x1b[0m\n2 | \x1b[1;31mc\x1b[0md\n3 | \n");
}
