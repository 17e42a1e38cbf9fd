use lead_build::lineindex::{LineIndex, Position, Range};

#[test]
fn position_within_single_line() {
    let text = "hello world";
    let index = LineIndex::new(text);
    assert_eq!(index.position(text, 6), Position { line: 0, character: 6 });
}

#[test]
fn position_across_multiple_lines() {
    let text = "foo\nbar\nbaz";
    let index = LineIndex::new(text);
    assert_eq!(index.position(text, 0), Position { line: 0, character: 0 });
    assert_eq!(index.position(text, 4), Position { line: 1, character: 0 });
    assert_eq!(index.position(text, 10), Position { line: 2, character: 2 });
}

#[test]
fn position_at_line_boundary_offset() {
    let text = "ab\ncd";
    let index = LineIndex::new(text);
    assert_eq!(index.position(text, 2), Position { line: 0, character: 2 });
    assert_eq!(index.position(text, 3), Position { line: 1, character: 0 });
}

#[test]
fn position_counts_utf16_code_units_not_bytes() {
    let text = "é😀x";
    let index = LineIndex::new(text);
    let x_byte_offset = "é😀".len();
    assert_eq!(index.position(text, x_byte_offset), Position { line: 0, character: 3 });
}

#[test]
fn range_converts_both_ends() {
    let text = "foo\nbar";
    let index = LineIndex::new(text);
    assert_eq!(
        index.range(text, 1..5),
        Range {
            start: Position { line: 0, character: 1 },
            end: Position { line: 1, character: 1 },
        }
    );
}

#[test]
fn offset_within_single_line() {
    let text = "hello world";
    let index = LineIndex::new(text);
    assert_eq!(index.offset(text, Position { line: 0, character: 6 }), 6);
}

#[test]
fn offset_across_multiple_lines() {
    let text = "foo\nbar\nbaz";
    let index = LineIndex::new(text);
    assert_eq!(index.offset(text, Position { line: 1, character: 0 }), 4);
    assert_eq!(index.offset(text, Position { line: 2, character: 2 }), 10);
}

#[test]
fn offset_counts_utf16_code_units_not_bytes() {
    let text = "é😀x";
    let index = LineIndex::new(text);
    let x_byte_offset = "é😀".len();
    assert_eq!(index.offset(text, Position { line: 0, character: 3 }), x_byte_offset);
}

#[test]
fn offset_clamps_character_past_end_of_line() {
    let text = "ab\ncd";
    let index = LineIndex::new(text);
    assert_eq!(index.offset(text, Position { line: 0, character: 10 }), 2);
}

#[test]
fn offset_clamps_line_past_end_of_document() {
    let text = "ab\ncd";
    let index = LineIndex::new(text);
    assert_eq!(index.offset(text, Position { line: 99, character: 0 }), 3);
}

#[test]
fn position_and_offset_round_trip() {
    let text = "let x = 1;\nin x + é😀";
    let index = LineIndex::new(text);
    for byte_offset in 0..=text.len() {
        if !text.is_char_boundary(byte_offset) {
            continue;
        }
        let position = index.position(text, byte_offset);
        assert_eq!(index.offset(text, position), byte_offset);
    }
}

#[test]
fn lineindex_crlf_line_ends_before_the_carriage_return() {
    let text = "ab\r\ncd";
    let index = LineIndex::new(text);
    assert_eq!(index.offset(text, Position { line: 0, character: 9 }), 2);
    assert_eq!(index.position(text, 4), Position { line: 1, character: 0 });
}

#[test]
fn lineindex_trailing_carriage_return_is_left_off_going_back() {
    let text = "a\r";
    let index = LineIndex::new(text);
    let position = index.position(text, 2);
    assert_eq!(position, Position { line: 0, character: 2 });
    assert_eq!(index.offset(text, position), 1);
}

#[test]
fn lineindex_empty_document_has_one_empty_line() {
    let text = "";
    let index = LineIndex::new(text);
    assert_eq!(index.position(text, 0), Position { line: 0, character: 0 });
    assert_eq!(index.offset(text, Position { line: 3, character: 7 }), 0);
}
