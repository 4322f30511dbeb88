//! Source spans: a byte range within a named source text, together
//! with the text and its line index, as renderers consume them.

use vstd::prelude::*;
use vstd::string::*;
use crate::indexer::{spec_line_starts, Indexer, LineIndexer};

verus! {

/// A reference to a byte range within a named source text.
pub trait Span {
    /// The identifier of the source the span points into.
    type Uri;

    /// The source text type.
    type Source;

    /// The line index of the source text.
    type Index;

    /// The start of the byte range.
    fn start(&self) -> usize;

    /// The end of the byte range.
    fn end(&self) -> usize;

    /// The source text.
    fn source_text(&self) -> &Self::Source;

    /// The line index of the source text.
    fn source_index(&self) -> &Self::Index;

    /// The identifier of the source.
    fn uri(&self) -> &Self::Uri;
}

/// Spec-level mirror of [`SimpleSpan`].
pub struct SimpleSpanV {
    pub uri: Seq<char>,
    pub source: Seq<char>,
    pub starts: Seq<usize>,
    pub start: usize,
    pub end: usize,
}

/// A straightforward [`Span`]: an owned URI and source text, the line
/// index of that text, and the byte range.
#[derive(Debug)]
pub struct SimpleSpan {
    uri: String,
    source: String,
    indexer: LineIndexer,
    start: usize,
    end: usize,
}

impl View for SimpleSpan {
    type V = SimpleSpanV;

    closed spec fn view(&self) -> SimpleSpanV {
        SimpleSpanV {
            uri: self.uri@,
            source: self.source@,
            starts: self.indexer@,
            start: self.start,
            end: self.end,
        }
    }
}

impl SimpleSpan {
    /// Build a span over the given source text: the line index is
    /// computed from the text once, here.
    pub fn new(uri: &str, source: &str, start: usize, end: usize) -> (r: SimpleSpan)
        ensures
            r@.uri == uri@,
            r@.source == source@,
            r@.starts == spec_line_starts(source.spec_bytes(), 0),
            r@.start == start,
            r@.end == end,
    {
        let indexer = LineIndexer::new(source);
        SimpleSpan {
            uri: String::from_str(uri),
            source: String::from_str(source),
            indexer,
            start,
            end,
        }
    }
}

impl Span for SimpleSpan {
    type Uri = String;

    type Source = String;

    type Index = LineIndexer;

    fn start(&self) -> (r: usize)
        ensures
            r == self@.start,
    {
        self.start
    }

    fn end(&self) -> (r: usize)
        ensures
            r == self@.end,
    {
        self.end
    }

    fn source_text(&self) -> (r: &String)
        ensures
            r@ == self@.source,
    {
        &self.source
    }

    fn source_index(&self) -> (r: &LineIndexer)
        ensures
            r@ == self@.starts,
    {
        &self.indexer
    }

    fn uri(&self) -> (r: &String)
        ensures
            r@ == self@.uri,
    {
        &self.uri
    }
}

impl Default for SimpleSpan {
    /// The span meaning "no source location known": an empty URI and
    /// source, and an empty byte range at the origin.
    fn default() -> (r: SimpleSpan)
        ensures
            r@.uri == Seq::<char>::empty(),
            r@.source == Seq::<char>::empty(),
            r@.start == 0,
            r@.end == 0,
    {
        proof {
            reveal_strlit("");
        }
        SimpleSpan::new("", "", 0, 0)
    }
}

} // verus!
