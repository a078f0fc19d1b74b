use bevy_color_lsp::error::{decimal_string, Error};

#[test]
fn display_each_variant() {
    assert!(Error::InvalidHex("bad".into()).message().contains("invalid hex"));
    assert!(Error::PositionOutOfBounds { line: 5, character: 3 }
        .message()
        .contains("out of document bounds"));
    assert!(Error::OffsetOverflow.message().contains("overflow"));
    assert!(Error::GrammarLoad.message().contains("grammar"));
}

#[test]
fn messages_exact() {
    assert_eq!(Error::InvalidHex("bad".into()).message(), "invalid hex color literal: \"bad\"");
    assert_eq!(
        Error::PositionOutOfBounds { line: 5, character: 31 }.message(),
        "position out of document bounds: line=5 character=31"
    );
    assert_eq!(Error::OffsetOverflow.message(), "byte offset arithmetic overflow");
    assert_eq!(Error::GrammarLoad.message(), "tree-sitter failed to load grammar");
}

#[test]
fn io_message_is_inner_message() {
    let inner = std::io::Error::new(std::io::ErrorKind::Other, "disk on fire");
    assert_eq!(Error::Io(inner).message(), "disk on fire");
}

#[test]
fn decimal_strings() {
    assert_eq!(decimal_string(0), "0");
    assert_eq!(decimal_string(7), "7");
    assert_eq!(decimal_string(10), "10");
    assert_eq!(decimal_string(4294967295), "4294967295");
}
