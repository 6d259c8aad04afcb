//! The markdown parser's event stream, seen through plain values.

use pulldown_cmark::{Event, TagEnd};
use vstd::prelude::*;

verus! {

#[verifier::external_type_specification]
#[verifier::external_body]
pub struct ExEvent<'a>(Event<'a>);

#[verifier::external_type_specification]
#[verifier::external_body]
pub struct ExTagEnd(TagEnd);

/// The kind of a block or inline container that an event opens or closes.
#[derive(Clone, Copy, Debug, PartialEq, Eq, Structural)]
pub enum Block {
    /// A heading of the given level (1 to 6).
    Heading(u8),
    Paragraph,
    CodeBlock,
    List,
    Item,
    BlockQuote,
    Strong,
    Emphasis,
    Other,
}

/// One event of the parser, split into its parts; the container of a start
/// event is given by the matching end tag.
pub enum EventParts {
    Start(TagEnd),
    End(TagEnd),
    Text(String),
    Code(String),
    Rule,
    SoftBreak,
    HardBreak,
    Other,
}

/// Relies on pulldown_cmark::Event's variants, on Tag::to_end, which gives
/// the end tag that closes a start tag, and on CowStr's `Deref` to `str`.
#[verifier::external_body]
pub(crate) fn event_parts(e: &Event<'_>) -> EventParts {
    match e {
        Event::Start(t) => EventParts::Start(t.to_end()),
        Event::End(t) => EventParts::End(*t),
        Event::Text(s) => EventParts::Text(s.to_string()),
        Event::Code(s) => EventParts::Code(s.to_string()),
        Event::Rule => EventParts::Rule,
        Event::SoftBreak => EventParts::SoftBreak,
        Event::HardBreak => EventParts::HardBreak,
        _ => EventParts::Other,
    }
}

/// Relies on pulldown_cmark::TagEnd's variants and on HeadingLevel, whose
/// discriminants run from 1 (H1) to 6 (H6).
#[verifier::external_body]
pub(crate) fn block_of(t: &TagEnd) -> (r: Block)
    ensures
        r matches Block::Heading(l) ==> 1 <= l <= 6,
{
    match t {
        TagEnd::Heading(level) => Block::Heading(*level as u8),
        TagEnd::Paragraph => Block::Paragraph,
        TagEnd::CodeBlock => Block::CodeBlock,
        TagEnd::List(_) => Block::List,
        TagEnd::Item => Block::Item,
        TagEnd::BlockQuote(_) => Block::BlockQuote,
        TagEnd::Strong => Block::Strong,
        TagEnd::Emphasis => Block::Emphasis,
        _ => Block::Other,
    }
}

} // verus!
