//! Tests for severity kinds and simple spans.

use error_enum::indexer::Indexer;
use error_enum::kind::Kind;
use error_enum::span::{SimpleSpan, Span};

#[test]
fn kind_literals() {
    assert_eq!(Kind::try_from_str("error"), Some(Kind::Error));
    assert_eq!(Kind::try_from_str("Error"), Some(Kind::Error));
    assert_eq!(Kind::try_from_str("warn"), Some(Kind::Warn));
    assert_eq!(Kind::try_from_str("Warn"), Some(Kind::Warn));
    assert_eq!(Kind::try_from_str("hint"), None);
    assert_eq!(Kind::Error.short_str(), "E");
    assert_eq!(Kind::Warn.short_str(), "W");
}

#[test]
fn simple_span_accessors() {
    let span = SimpleSpan::new("foo.rs", "use white;", 4, 9);
    assert_eq!(span.start(), 4);
    assert_eq!(span.end(), 9);
    assert_eq!(span.uri(), "foo.rs");
    assert_eq!(span.source_text(), "use white;");
    assert_eq!(span.source_index().line_col_at(4), (0, 4));
}

#[test]
fn simple_span_default_is_empty() {
    let span = SimpleSpan::default();
    assert_eq!(span.start(), 0);
    assert_eq!(span.end(), 0);
    assert_eq!(span.uri(), "");
    assert_eq!(span.source_text(), "");
}
