use vstd::prelude::*;

use xml::reader::{EventReader, XmlEvent};

verus! {

/// One attribute of a start tag: its local name and its value.
pub struct Attribute {
    pub name: String,
    pub value: String,
}

/// One event of a manifest's XML reading.
pub enum Event {
    Start { name: String, attributes: Vec<Attribute> },
    End { name: String },
    Text { content: String },
    Other,
}

pub enum EventView {
    Start { name: Seq<char>, attributes: Seq<(Seq<char>, Seq<char>)> },
    End { name: Seq<char> },
    Text { content: Seq<char> },
    Other,
}

/// Attributes as (name, value) pairs of texts.
pub open spec fn attrs_view(attrs: Seq<Attribute>) -> Seq<(Seq<char>, Seq<char>)> {
    attrs.map_values(|a: Attribute| (a.name@, a.value@))
}

impl View for Event {
    type V = EventView;

    open spec fn view(&self) -> EventView {
        match self {
            Event::Start { name, attributes } => EventView::Start {
                name: name@,
                attributes: attrs_view(attributes@),
            },
            Event::End { name } => EventView::End { name: name@ },
            Event::Text { content } => EventView::Text { content: content@ },
            Event::Other => EventView::Other,
        }
    }
}

pub open spec fn events_view(events: Seq<Event>) -> Seq<EventView> {
    events.map_values(|e: Event| e@)
}

/// The events that the XML reader yields for a document.
pub uninterp spec fn xml_events_of(text: Seq<char>) -> Seq<EventView>;

/// Relies on `xml::reader::EventReader` (xml-rs) iterated to its end: start
/// tags, end tags and character data, each with local names; every other event
/// and a read error become `Other`. The events depend on the text alone.
#[verifier::external_body]
pub(crate) fn xml_events(text: &str) -> (r: Vec<Event>)
    ensures
        events_view(r@) == xml_events_of(text@),
{
    let mut out = Vec::new();
    for e in EventReader::new(text.as_bytes()) {
        out.push(match e {
            Ok(XmlEvent::StartElement { name, attributes, .. }) => Event::Start {
                name: name.local_name,
                attributes: attributes.into_iter().map(|a| Attribute { name: a.name.local_name, value: a.value }).collect(),
            },
            Ok(XmlEvent::EndElement { name }) => Event::End { name: name.local_name },
            Ok(XmlEvent::Characters(content)) => Event::Text { content },
            _ => Event::Other,
        });
    }
    out
}

} // verus!
