use bevy_color_lsp::detectors::{ColorMatch, ColorValue};
use bevy_color_lsp::document::{byte_ranges_to_lsp, byte_to_position, DocumentStore, Position, Range};

#[test]
fn position_first_line() {
    let p = byte_to_position("hello", 3);
    assert_eq!(p.line, 0);
    assert_eq!(p.character, 3);
}

#[test]
fn position_second_line() {
    let p = byte_to_position("ab\ncd", 4);
    assert_eq!(p.line, 1);
    assert_eq!(p.character, 1);
}

#[test]
fn position_utf16_emoji() {
    let p = byte_to_position("a\u{1F600}b", 5);
    assert_eq!(p.character, 3);
}

#[test]
fn position_inside_char_and_past_end() {
    // Byte 2 is inside the emoji, which started before it: counted.
    assert_eq!(byte_to_position("a\u{1F600}b", 2), Position { line: 0, character: 3 });
    assert_eq!(byte_to_position("ab\ncd", 100), Position { line: 1, character: 2 });
    assert_eq!(byte_to_position("", 7), Position { line: 0, character: 0 });
    assert_eq!(byte_to_position("ab", 0), Position { line: 0, character: 0 });
}

#[test]
fn store_open_then_colors() {
    let mut store = DocumentStore::default();
    let uri = "file:///t.rs".to_string();
    store.open(uri.clone(), "Color::WHITE".to_string());
    let cs = store.colors_for(&uri);
    assert_eq!(cs.len(), 1);
}

#[test]
fn cache_invalidates_on_update() {
    let mut store = DocumentStore::default();
    let uri = "file:///t.rs".to_string();
    store.open(uri.clone(), "Color::WHITE".to_string());
    assert_eq!(store.colors_for(&uri).len(), 1);
    store.update(&uri, "Color::BLACK; Color::WHITE".to_string());
    assert_eq!(store.colors_for(&uri).len(), 2);
}

#[test]
fn closed_document_has_no_colors() {
    let mut store = DocumentStore::default();
    store.open("a".to_string(), "Color::WHITE".to_string());
    store.open("b".to_string(), "Color::BLACK".to_string());
    store.close("a");
    assert!(store.colors_for("a").is_empty());
    assert_eq!(store.colors_for("b")[0].1.color, ColorValue::Black);
    store.update("a", "Color::WHITE".to_string());
    assert!(store.colors_for("a").is_empty());
}

#[test]
fn colors_twice_are_equal() {
    let mut store = DocumentStore::default();
    store.open("a".to_string(), "x\nColor::srgb(1.0, 0.5, 0.0); Color::WHITE".to_string());
    let first = store.colors_for("a");
    let second = store.colors_for("a");
    assert_eq!(first, second);
    assert_eq!(first.len(), 2);
    assert_eq!(first[0].0, Range { start: Position { line: 1, character: 0 }, end: Position { line: 1, character: 26 } });
}

#[test]
fn batch_ranges_match_per_call() {
    let text = "a\nbb\ncccc\nColor::WHITE";
    let m = ColorMatch { start_byte: 10, end_byte: 22, color: ColorValue::White };
    let batched = byte_ranges_to_lsp(text, &[m]);
    let single = Range { start: byte_to_position(text, 10), end: byte_to_position(text, 22) };
    assert_eq!(batched[0], single);
}

#[test]
fn batch_ranges_unordered_offsets() {
    let text = "é\n\u{1F600}x\ny";
    let ms = [
        ColorMatch { start_byte: 9, end_byte: 10, color: ColorValue::White },
        ColorMatch { start_byte: 0, end_byte: 3, color: ColorValue::Black },
        ColorMatch { start_byte: 3, end_byte: 50, color: ColorValue::Transparent },
    ];
    let batched = byte_ranges_to_lsp(text, &ms);
    for (m, r) in ms.iter().zip(&batched) {
        assert_eq!(r.start, byte_to_position(text, m.start_byte));
        assert_eq!(r.end, byte_to_position(text, m.end_byte));
    }
    assert_eq!(batched[0].start, Position { line: 2, character: 0 });
}

#[test]
fn positions_follow_byte_offsets() {
    let text = "ab\n\u{1F600}c\n\nd";
    let mut previous = byte_to_position(text, 0);
    for b in 1..=text.len() + 2 {
        let p = byte_to_position(text, b);
        assert!((previous.line, previous.character) <= (p.line, p.character));
        previous = p;
    }
    assert_eq!(byte_to_position(text, 3), Position { line: 1, character: 0 });
    assert_eq!(byte_to_position(text, 7), Position { line: 1, character: 2 });
}

#[test]
fn positions_fit_for_open_and_unknown_documents() {
    let mut store = DocumentStore::default();
    store.open("a".to_string(), "Color::WHITE\n".to_string());
    assert!(store.positions_fit_for("a"));
    assert!(store.positions_fit_for("missing"));
}

#[test]
fn short_texts_fit_in_lsp_positions() {
    assert!(bevy_color_lsp::position::positions_fit("é\n\u{1F600}x\ny"));
    assert!(bevy_color_lsp::position::positions_fit(""));
}
