use vstd::prelude::*;

verus! {

/// What the library reads of an element of a parsed org document.
pub enum ElementKind {
    /// A link, with its destination.
    Link(String),
    /// Plain text, with its value.
    Text(String),
    /// Any other element.
    Other,
}

/// One step of the walk through a parsed org document.
pub enum OrgEvent {
    /// The walk enters an element.
    Start(ElementKind),
    /// The walk leaves an element.
    End,
}

/// `ElementKind` with its texts as character sequences.
pub enum ElementView {
    Link(Seq<char>),
    Text(Seq<char>),
    Other,
}

/// `OrgEvent` with its texts as character sequences.
pub enum EventView {
    Start(ElementView),
    End,
}

impl View for ElementKind {
    type V = ElementView;

    open spec fn view(&self) -> ElementView {
        match self {
            ElementKind::Link(p) => ElementView::Link(p@),
            ElementKind::Text(t) => ElementView::Text(t@),
            ElementKind::Other => ElementView::Other,
        }
    }
}

impl View for OrgEvent {
    type V = EventView;

    open spec fn view(&self) -> EventView {
        match self {
            OrgEvent::Start(e) => EventView::Start(e@),
            OrgEvent::End => EventView::End,
        }
    }
}

/// The events as views.
pub open spec fn events_view(events: Seq<OrgEvent>) -> Seq<EventView> {
    events.map_values(|e: OrgEvent| e@)
}

/// The walk, start and end of each element in document order, that
/// `orgize::Org::parse(text).iter()` makes through the document `text`.
pub uninterp spec fn orgize_events(text: Seq<char>) -> Seq<EventView>;

/// Parses `text` with `orgize::Org::parse` and hands back its walk
/// (`Org::iter`), each event turned into an `OrgEvent`: link destinations and
/// text values are kept, other elements are only marked as such.
#[verifier::external_body]
pub(crate) fn org_events(text: &str) -> (r: Vec<OrgEvent>)
    ensures
        events_view(r@) == orgize_events(text@),
{
    let org = orgize::Org::parse(text);
    let mut events = Vec::new();
    for event in org.iter() {
        events.push(match event {
            orgize::Event::Start(orgize::Element::Link(link)) => OrgEvent::Start(ElementKind::Link(link.path.to_string())),
            orgize::Event::Start(orgize::Element::Text { value }) => OrgEvent::Start(ElementKind::Text(value.to_string())),
            orgize::Event::Start(_) => OrgEvent::Start(ElementKind::Other),
            orgize::Event::End(_) => OrgEvent::End,
        });
    }
    events
}

} // verus!
