//! The markdown event stream: the parser's events as plain values.

use vstd::prelude::*;
use pulldown_cmark::{Alignment, CodeBlockKind, Event, Options, Parser, Tag, TagEnd};

verus! {

/// `pulldown_cmark::Event`, carried through as an opaque value.
#[verifier::external_type_specification]
#[verifier::external_body]
pub struct ExEvent<'a>(Event<'a>);

/// `pulldown_cmark::Alignment`, carried through as an opaque value.
#[verifier::external_type_specification]
#[verifier::external_body]
pub struct ExAlignment(Alignment);

/// How the cells of a table column are aligned.
#[derive(Clone, Copy, Debug, PartialEq, Eq, Structural)]
pub enum ColumnAlign {
    Unset,
    Left,
    Center,
    Right,
}

/// One event of a markdown document, in document order.
#[derive(Debug)]
pub enum MdEvent {
    StartParagraph,
    EndParagraph,
    /// A heading of the given level, 1 to 6.
    StartHeading(u8),
    EndHeading(u8),
    StartBlockQuote,
    EndBlockQuote,
    /// A code block with the language named on its fence; empty for an
    /// indented block.
    StartCodeBlock(String),
    EndCodeBlock,
    /// A list; ordered lists carry the number of their first item.
    StartList(Option<u64>),
    EndList,
    StartItem,
    EndItem,
    StartFootnoteDefinition(String),
    EndFootnoteDefinition,
    StartDefinitionList,
    EndDefinitionList,
    StartDefinitionTitle,
    EndDefinitionTitle,
    StartDefinition,
    EndDefinition,
    StartTable(Vec<ColumnAlign>),
    EndTable,
    StartTableHead,
    EndTableHead,
    StartTableRow,
    EndTableRow,
    StartTableCell,
    EndTableCell,
    StartEmphasis,
    EndEmphasis,
    StartStrong,
    EndStrong,
    StartStrikethrough,
    EndStrikethrough,
    /// A link with its destination.
    StartLink(String),
    EndLink,
    /// An image with its destination.
    StartImage(String),
    EndImage,
    Text(String),
    Code(String),
    InlineMath(String),
    DisplayMath(String),
    FootnoteReference(String),
    SoftBreak,
    HardBreak,
    Rule,
    TaskListMarker(bool),
    /// Anything else: raw HTML, metadata blocks and the like.
    Other,
}

/// The markdown extensions that the parser is asked to recognize.
#[derive(Clone, Copy, Debug, PartialEq, Eq, Structural)]
pub struct Extensions {
    pub strikethrough: bool,
    pub tables: bool,
    pub footnotes: bool,
    pub tasklists: bool,
    pub math: bool,
    pub definition_lists: bool,
}

/// Converts a `pulldown_cmark::Alignment`, variant for variant.
#[verifier::external_body]
fn align_of(a: &Alignment) -> ColumnAlign {
    match a {
        Alignment::None => ColumnAlign::Unset,
        Alignment::Left => ColumnAlign::Left,
        Alignment::Center => ColumnAlign::Center,
        Alignment::Right => ColumnAlign::Right,
    }
}

/// Converts the variants of `pulldown_cmark::Event` that carry text.
#[verifier::external_body]
fn text_event(e: &Event<'_>) -> Option<MdEvent> {
    match e {
        Event::Text(t) => Some(MdEvent::Text(t.to_string())),
        Event::Code(t) => Some(MdEvent::Code(t.to_string())),
        Event::InlineMath(t) => Some(MdEvent::InlineMath(t.to_string())),
        Event::DisplayMath(t) => Some(MdEvent::DisplayMath(t.to_string())),
        Event::FootnoteReference(t) => Some(MdEvent::FootnoteReference(t.to_string())),
        _ => None,
    }
}

/// Converts the break, rule and task-marker variants of
/// `pulldown_cmark::Event`.
#[verifier::external_body]
fn mark_event(e: &Event<'_>) -> Option<MdEvent> {
    match e {
        Event::SoftBreak => Some(MdEvent::SoftBreak),
        Event::HardBreak => Some(MdEvent::HardBreak),
        Event::Rule => Some(MdEvent::Rule),
        Event::TaskListMarker(b) => Some(MdEvent::TaskListMarker(*b)),
        _ => None,
    }
}

/// Converts the start of a paragraph, heading, quote, list or item.
#[verifier::external_body]
fn start_block(e: &Event<'_>) -> Option<MdEvent> {
    match e {
        Event::Start(Tag::Paragraph) => Some(MdEvent::StartParagraph),
        Event::Start(Tag::Heading { level, .. }) => Some(MdEvent::StartHeading(*level as u8)),
        Event::Start(Tag::BlockQuote(_)) => Some(MdEvent::StartBlockQuote),
        Event::Start(Tag::List(n)) => Some(MdEvent::StartList(*n)),
        Event::Start(Tag::Item) => Some(MdEvent::StartItem),
        _ => None,
    }
}

/// Converts the start of a code block, with the language of a fenced one.
#[verifier::external_body]
fn start_code(e: &Event<'_>) -> Option<MdEvent> {
    match e {
        Event::Start(Tag::CodeBlock(CodeBlockKind::Fenced(lang))) => Some(
            MdEvent::StartCodeBlock(lang.to_string()),
        ),
        Event::Start(Tag::CodeBlock(CodeBlockKind::Indented)) => Some(
            MdEvent::StartCodeBlock(String::new()),
        ),
        _ => None,
    }
}

/// Converts the start of a footnote definition or of a part of a definition
/// list.
#[verifier::external_body]
fn start_definition(e: &Event<'_>) -> Option<MdEvent> {
    match e {
        Event::Start(Tag::FootnoteDefinition(l)) => Some(
            MdEvent::StartFootnoteDefinition(l.to_string()),
        ),
        Event::Start(Tag::DefinitionList) => Some(MdEvent::StartDefinitionList),
        Event::Start(Tag::DefinitionListTitle) => Some(MdEvent::StartDefinitionTitle),
        Event::Start(Tag::DefinitionListDefinition) => Some(MdEvent::StartDefinition),
        _ => None,
    }
}

/// Converts the start of a table or of a part of one.
#[verifier::external_body]
fn start_table(e: &Event<'_>) -> Option<MdEvent> {
    match e {
        Event::Start(Tag::Table(a)) => Some(MdEvent::StartTable(a.iter().map(align_of).collect())),
        Event::Start(Tag::TableHead) => Some(MdEvent::StartTableHead),
        Event::Start(Tag::TableRow) => Some(MdEvent::StartTableRow),
        Event::Start(Tag::TableCell) => Some(MdEvent::StartTableCell),
        _ => None,
    }
}

/// Converts the start of an inline element.
#[verifier::external_body]
fn start_inline(e: &Event<'_>) -> Option<MdEvent> {
    match e {
        Event::Start(Tag::Emphasis) => Some(MdEvent::StartEmphasis),
        Event::Start(Tag::Strong) => Some(MdEvent::StartStrong),
        Event::Start(Tag::Strikethrough) => Some(MdEvent::StartStrikethrough),
        Event::Start(Tag::Link { dest_url, .. }) => Some(MdEvent::StartLink(dest_url.to_string())),
        Event::Start(Tag::Image { dest_url, .. }) => Some(MdEvent::StartImage(dest_url.to_string())),
        _ => None,
    }
}

/// Converts the end of a paragraph, heading, quote, code block, list or item.
#[verifier::external_body]
fn end_block(e: &Event<'_>) -> Option<MdEvent> {
    match e {
        Event::End(TagEnd::Paragraph) => Some(MdEvent::EndParagraph),
        Event::End(TagEnd::Heading(level)) => Some(MdEvent::EndHeading(*level as u8)),
        Event::End(TagEnd::BlockQuote(_)) => Some(MdEvent::EndBlockQuote),
        Event::End(TagEnd::CodeBlock) => Some(MdEvent::EndCodeBlock),
        Event::End(TagEnd::List(_)) => Some(MdEvent::EndList),
        Event::End(TagEnd::Item) => Some(MdEvent::EndItem),
        _ => None,
    }
}

/// Converts the end of a footnote definition or of a part of a definition
/// list.
#[verifier::external_body]
fn end_definition(e: &Event<'_>) -> Option<MdEvent> {
    match e {
        Event::End(TagEnd::FootnoteDefinition) => Some(MdEvent::EndFootnoteDefinition),
        Event::End(TagEnd::DefinitionList) => Some(MdEvent::EndDefinitionList),
        Event::End(TagEnd::DefinitionListTitle) => Some(MdEvent::EndDefinitionTitle),
        Event::End(TagEnd::DefinitionListDefinition) => Some(MdEvent::EndDefinition),
        _ => None,
    }
}

/// Converts the end of a table or of a part of one.
#[verifier::external_body]
fn end_table(e: &Event<'_>) -> Option<MdEvent> {
    match e {
        Event::End(TagEnd::Table) => Some(MdEvent::EndTable),
        Event::End(TagEnd::TableHead) => Some(MdEvent::EndTableHead),
        Event::End(TagEnd::TableRow) => Some(MdEvent::EndTableRow),
        Event::End(TagEnd::TableCell) => Some(MdEvent::EndTableCell),
        _ => None,
    }
}

/// Converts the end of an inline element.
#[verifier::external_body]
fn end_inline(e: &Event<'_>) -> Option<MdEvent> {
    match e {
        Event::End(TagEnd::Emphasis) => Some(MdEvent::EndEmphasis),
        Event::End(TagEnd::Strong) => Some(MdEvent::EndStrong),
        Event::End(TagEnd::Strikethrough) => Some(MdEvent::EndStrikethrough),
        Event::End(TagEnd::Link) => Some(MdEvent::EndLink),
        Event::End(TagEnd::Image) => Some(MdEvent::EndImage),
        _ => None,
    }
}

fn first_of(a: Option<MdEvent>, b: Option<MdEvent>) -> (r: Option<MdEvent>)
    ensures
        r == if a.is_some() {
            a
        } else {
            b
        },
{
    match a {
        Some(x) => Some(x),
        None => b,
    }
}

/// The library's event for a parser event; `Other` for what the layout does
/// not look at.
fn convert_event(e: Event<'_>) -> MdEvent {
    let r = first_of(text_event(&e), mark_event(&e));
    let r = first_of(r, start_block(&e));
    let r = first_of(r, start_code(&e));
    let r = first_of(r, start_definition(&e));
    let r = first_of(r, start_table(&e));
    let r = first_of(r, start_inline(&e));
    let r = first_of(r, end_block(&e));
    let r = first_of(r, end_definition(&e));
    let r = first_of(r, end_table(&e));
    let r = first_of(r, end_inline(&e));
    match r {
        Some(m) => m,
        None => MdEvent::Other,
    }
}

/// The events of the markdown text `content`, parsed with the extensions
/// `ext`, each as the library's event.
pub uninterp spec fn markdown_events(content: Seq<char>, ext: Extensions) -> Seq<MdEvent>;

/// `pulldown_cmark::Parser::new_ext`, run to its end: the events of the
/// document in order, which depend on the text and the options alone.
#[verifier::external_body]
fn parse_events(content: &str, ext: Extensions) -> (r: Vec<MdEvent>)
    ensures
        r@ == markdown_events(content@, ext),
{
    let mut o = Options::empty();
    o.set(Options::ENABLE_STRIKETHROUGH, ext.strikethrough);
    o.set(Options::ENABLE_TABLES, ext.tables);
    o.set(Options::ENABLE_FOOTNOTES, ext.footnotes);
    o.set(Options::ENABLE_TASKLISTS, ext.tasklists);
    o.set(Options::ENABLE_MATH, ext.math);
    o.set(Options::ENABLE_DEFINITION_LIST, ext.definition_lists);
    Parser::new_ext(content, o).map(convert_event).collect()
}

/// The extensions that the preview reads: strikethrough, tables, footnotes,
/// task lists, math and definition lists.
pub open spec fn preview_extensions() -> Extensions {
    Extensions {
        strikethrough: true,
        tables: true,
        footnotes: true,
        tasklists: true,
        math: true,
        definition_lists: true,
    }
}

/// Parses `content` with the extensions of the preview.
pub fn parse_markdown(content: &str) -> (r: Vec<MdEvent>)
    ensures
        r@ == markdown_events(content@, preview_extensions()),
{
    parse_events(
        content,
        Extensions {
            strikethrough: true,
            tables: true,
            footnotes: true,
            tasklists: true,
            math: true,
            definition_lists: true,
        },
    )
}

} // verus!
