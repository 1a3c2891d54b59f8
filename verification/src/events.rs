//! The Markdown parser's event stream, reduced to what block extraction
//! reads: fenced-code-block boundaries with their info-string label, text
//! nodes, and everything else collapsed into one opaque kind.
//!
//! Spans are byte offsets `[start, end)` into the source document.  The
//! parser itself is an outside collaborator; [`parse_events`] is the one
//! trusted boundary of this crate.

use pulldown_cmark::CodeBlockKind::Fenced;
use pulldown_cmark::Event::{End, Start, Text};
use pulldown_cmark::Tag::CodeBlock;
use pulldown_cmark::{Options, Parser};
use vstd::prelude::*;

verus! {

/// One parser occurrence, as executable data.
pub enum MdEvent {
    /// Opening of a fenced code block; `label` is the info string after the
    /// opening fence.
    FenceStart { label: Vec<u8>, start: usize, end: usize },
    /// A text node.
    Text { start: usize, end: usize },
    /// Closing of a fenced code block, carrying the same info-string label.
    FenceEnd { label: Vec<u8>, start: usize, end: usize },
    /// Any other parser occurrence; observed but never acted upon.
    Other,
}

/// The mathematical form of an [`MdEvent`].
pub enum EventV {
    FenceStart { label: Seq<u8>, start: int, end: int },
    Text { start: int, end: int },
    FenceEnd { label: Seq<u8>, start: int, end: int },
    Other,
}

impl View for MdEvent {
    type V = EventV;

    open spec fn view(&self) -> EventV {
        match self {
            MdEvent::FenceStart { label, start, end } => EventV::FenceStart {
                label: label@,
                start: *start as int,
                end: *end as int,
            },
            MdEvent::Text { start, end } => EventV::Text {
                start: *start as int,
                end: *end as int,
            },
            MdEvent::FenceEnd { label, start, end } => EventV::FenceEnd {
                label: label@,
                start: *start as int,
                end: *end as int,
            },
            MdEvent::Other => EventV::Other,
        }
    }
}

/// The views of a sequence of events.
pub open spec fn events_view(evs: Seq<MdEvent>) -> Seq<EventV> {
    evs.map_values(|e: MdEvent| e@)
}

/// The event stream that the CommonMark parser produces over a document,
/// with the table, footnote, strikethrough and task-list extensions enabled,
/// reduced to [`EventV`] form.  The parser is deterministic, so the stream
/// is a function of the document bytes alone; bytes that are not valid
/// UTF-8 yield the empty stream.
pub uninterp spec fn md_events_of(content: Seq<u8>) -> Seq<EventV>;

/// Relies on `pulldown_cmark::Parser::new_ext` and
/// `Parser::into_offset_iter`: the parser, configured with the table,
/// footnote, strikethrough and task-list extensions, yields its events in
/// document order, each with the byte range it covers in the source text.
#[verifier::external_body]
pub(crate) fn parse_events(content: &[u8]) -> (r: Vec<MdEvent>)
    ensures
        events_view(r@) == md_events_of(content@),
{
    let Ok(text) = core::str::from_utf8(content) else { return Vec::new() };
    let opts = Options::ENABLE_TABLES | Options::ENABLE_FOOTNOTES
        | Options::ENABLE_STRIKETHROUGH | Options::ENABLE_TASKLISTS;
    Parser::new_ext(text, opts).into_offset_iter().map(|(e, s)| match e {
        Start(CodeBlock(Fenced(l))) => MdEvent::FenceStart {
            label: l.into_string().into_bytes(), start: s.start, end: s.end,
        },
        End(CodeBlock(Fenced(l))) => MdEvent::FenceEnd {
            label: l.into_string().into_bytes(), start: s.start, end: s.end,
        },
        Text(_) => MdEvent::Text { start: s.start, end: s.end },
        _ => MdEvent::Other,
    }).collect()
}

} // verus!
