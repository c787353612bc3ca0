//! Bindings to the pulldown-cmark Markdown parser and HTML serializer: the
//! declared outside types, the per-variant event conversions, and the
//! trusted calls themselves.

use crate::markdown::{
    events_model, out_events_model, LinkExtras, MdEvent, MdEventModel, OutEvent, OutEventModel,
};
use pulldown_cmark::{CodeBlockKind, Event, Options, Parser, Tag, TagEnd, TextMergeStream};
use vstd::prelude::*;

verus! {

/// Declares the parser's event type; its values stay opaque and are only
/// carried through.
#[verifier::external_type_specification]
#[verifier::external_body]
pub struct ExEvent<'a>(pulldown_cmark::Event<'a>);

/// Declares the parser's string type, carried inside link extras.
#[verifier::external_type_specification]
#[verifier::external_body]
pub struct ExCowStr<'a>(pulldown_cmark::CowStr<'a>);

/// Declares the link-kind enum, carried inside link extras.
#[verifier::external_type_specification]
#[verifier::external_body]
pub struct ExLinkType(pulldown_cmark::LinkType);

/// Declares the tag type that start events carry.
#[verifier::external_type_specification]
#[verifier::external_body]
pub struct ExTag<'a>(pulldown_cmark::Tag<'a>);

/// The event stream that the external Markdown parser yields for a source:
/// every extension enabled, adjacent text runs merged. The parse depends on
/// the source alone; its result is only named here, never spelled out.
pub uninterp spec fn md_events_of(s: Seq<char>) -> Seq<MdEventModel>;

/// The HTML that the external serializer produces for an event stream; a
/// function of the events alone, only named here.
pub uninterp spec fn html_of(evs: Seq<OutEventModel>) -> Seq<char>;

/// Relies on telling `pulldown_cmark::Tag`'s variants apart, one arm each:
/// moves the payloads the renderer reads into plain values, keeps the rest
/// opaque.
#[verifier::external_body]
fn convert_start(t: Tag<'static>) -> MdEvent {
    match t {
        Tag::CodeBlock(CodeBlockKind::Fenced(l)) => MdEvent::CodeStart(Some(l.to_string())),
        Tag::CodeBlock(CodeBlockKind::Indented) => MdEvent::CodeStart(None),
        Tag::Link { link_type, dest_url, title, id } => MdEvent::LinkStart(dest_url.to_string(), LinkExtras { link_type, title, id }),
        Tag::Image { link_type, dest_url, title, id } => MdEvent::ImageStart(dest_url.to_string(), LinkExtras { link_type, title, id }),
        other => MdEvent::Other(Event::Start(other)),
    }
}

/// Relies on telling `pulldown_cmark::Event`'s variants apart, one arm each:
/// moves the payloads the renderer reads into plain values, keeps the rest
/// opaque.
#[verifier::external_body]
fn convert_event(e: Event<'static>) -> MdEvent {
    match e {
        Event::Start(t) => convert_start(t),
        Event::Text(t) => MdEvent::Text(t.to_string()),
        Event::End(TagEnd::CodeBlock) => MdEvent::CodeEnd,
        Event::DisplayMath(eq) => MdEvent::DisplayMath(eq.to_string()),
        Event::InlineMath(eq) => MdEvent::InlineMath(eq.to_string()),
        other => MdEvent::Other(other),
    }
}

/// Relies on constructing `pulldown_cmark::Event`s back from output events,
/// one arm each, moving the fields unchanged.
#[verifier::external_body]
pub(crate) fn out_to_event(ev: OutEvent) -> Event<'static> {
    match ev {
        OutEvent::Html(s) => Event::Html(s.into()),
        OutEvent::Text(s) => Event::Text(s.into()),
        OutEvent::LinkStart(d, x) => Event::Start(Tag::Link { link_type: x.link_type, dest_url: d.into(), title: x.title, id: x.id }),
        OutEvent::ImageStart(d, x) => Event::Start(Tag::Image { link_type: x.link_type, dest_url: d.into(), title: x.title, id: x.id }),
        OutEvent::Other(e) => e,
    }
}

/// Relies on `pulldown_cmark::html::push_html`: serializes the resolved
/// events to an HTML string, a deterministic function of the events.
#[verifier::external_body]
pub(crate) fn serialize_events(events: Vec<OutEvent>) -> (r: String)
    ensures
        r@ == html_of(out_events_model(events@)),
{
    let mut out = String::new();
    pulldown_cmark::html::push_html(&mut out, events.into_iter().map(out_to_event));
    out
}

/// Relies on `pulldown_cmark::Parser::new_ext` and `TextMergeStream`: parses
/// the source with every extension enabled, merges adjacent text runs, and
/// hands the events out owned and converted, exactly the named stream.
#[verifier::external_body]
pub(crate) fn parse_markdown_events(content: &str) -> (evs: Vec<MdEvent>)
    ensures
        events_model(evs@) == md_events_of(content@),
{
    let parser = Parser::new_ext(content, Options::all());
    TextMergeStream::new(parser).map(|e| convert_event(e.into_static())).collect()
}

} // verus!
