use vstd::prelude::*;

use pulldown_cmark::{CodeBlockKind, Event, Tag, TagEnd};

verus! {

/// pulldown_cmark's event type, declared so that values of it can be held
/// and moved by the library; the library never looks inside one.
#[verifier::external_type_specification]
#[verifier::external_body]
pub struct ExEvent<'a>(Event<'a>);

/// One structural event of a parsed chapter, as the block extractor sees it.
/// Fenced-code-block boundaries and text runs are told apart, because the
/// extractor reads them; every other construct is carried through opaquely.
pub enum MdEvent {
    /// Start of a fenced code block; the string is the fence's language tag.
    FencedStart(String),
    /// End of a code block.
    FencedEnd,
    /// A text run.
    Text(String),
    /// A raw-content run, as spliced in by this library for a rendered block.
    RawHtml(String),
    /// Any other construct, passed through unchanged.
    Other(Event<'static>),
}

/// The mathematical model of one event.
pub ghost enum EventModel {
    FencedStart(Seq<char>),
    FencedEnd,
    Text(Seq<char>),
    RawHtml(Seq<char>),
    Other(Event<'static>),
}

impl DeepView for MdEvent {
    type V = EventModel;

    open spec fn deep_view(&self) -> EventModel {
        match self {
            MdEvent::FencedStart(t) => EventModel::FencedStart(t@),
            MdEvent::FencedEnd => EventModel::FencedEnd,
            MdEvent::Text(t) => EventModel::Text(t@),
            MdEvent::RawHtml(t) => EventModel::RawHtml(t@),
            MdEvent::Other(e) => EventModel::Other(*e),
        }
    }
}

impl View for MdEvent {
    type V = EventModel;

    open spec fn view(&self) -> EventModel {
        self.deep_view()
    }
}

/// The event sequence that the markdown parser produces for source text `s`.
pub uninterp spec fn events_of(s: Seq<char>) -> Seq<EventModel>;

/// Relies on pulldown_cmark's Parser: parsing is a pure function of the
/// source text. Fenced-block starts, code-block ends and text runs are told
/// apart by variant, moving the fence tag and the text; every other event is
/// carried through unchanged (made owned by Event::into_static).
#[verifier::external_body]
pub(crate) fn parse_events(s: &str) -> (r: Vec<MdEvent>)
    ensures
        r.deep_view() == events_of(s@),
{
    pulldown_cmark::Parser::new(s)
        .map(|e| match e {
            Event::Start(Tag::CodeBlock(CodeBlockKind::Fenced(t))) => {
                MdEvent::FencedStart(t.to_string())
            },
            Event::End(TagEnd::CodeBlock) => MdEvent::FencedEnd,
            Event::Text(t) => MdEvent::Text(t.to_string()),
            other => MdEvent::Other(other.into_static()),
        })
        .collect()
}

/// The markdown source text that the event serializer produces for `evs`:
/// present exactly where the serializer accepts the event sequence, absent
/// where it reports an error (a stream no markdown could produce).
pub uninterp spec fn cmark_of(evs: Seq<EventModel>) -> Option<Seq<char>>;

/// Relies on pulldown_cmark_to_cmark::cmark: re-rendering a stream of events
/// as markdown source is a pure function of the event sequence (the parser
/// options are fixed to the ones the events were parsed with), and so is
/// whether the serializer accepts the stream at all. Returns None exactly
/// where the serializer reports an error.
#[verifier::external_body]
pub(crate) fn serialize_events(events: &Vec<MdEvent>) -> (r: Option<String>)
    ensures
        r is Some <==> cmark_of(events.deep_view()) is Some,
        r matches Some(s) ==> cmark_of(events.deep_view()) == Some(s@),
{
    let evs = events.iter().map(|e| match e {
        MdEvent::FencedStart(t) => Event::Start(Tag::CodeBlock(CodeBlockKind::Fenced(t.as_str().into()))),
        MdEvent::FencedEnd => Event::End(TagEnd::CodeBlock),
        MdEvent::Text(t) => Event::Text(t.as_str().into()),
        MdEvent::RawHtml(t) => Event::Html(t.as_str().into()),
        MdEvent::Other(ev) => ev.clone(),
    });
    let mut buf = String::new();
    match pulldown_cmark_to_cmark::cmark(evs, &mut buf, pulldown_cmark::Options::empty()) {
        Ok(_) => Some(buf),
        Err(_) => None,
    }
}

} // verus!
