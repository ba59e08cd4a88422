use crate::attribute::attribute_value;
use crate::attribute::get_attribute;
use crate::error::EpubError;
use crate::event::Event;
use crate::event::EventView;
use crate::event::document_events;
use crate::event::events_view;
use crate::event::is_start_element;
use crate::event::read_events;
use crate::package::attributes_of;
use crate::scan::find_start;
use crate::scan::start_index;
use crate::scan::starts_at;
use vstd::prelude::*;

verus! {

/// The path of the container descriptor inside every archive.
pub fn container_path() -> (r: &'static str)
    ensures
        r@ == "META-INF/container.xml"@,
{
    "META-INF/container.xml"
}

/// The package document that a container descriptor names: the decoded
/// `full-path` of its first `rootfile` element. A descriptor that ends in
/// an XML error before that element is malformed XML; one that has no such
/// element, or whose first one has no `full-path`, is a malformed container.
pub open spec fn content_file_name(events: Seq<EventView>) -> Result<Seq<char>, EpubError> {
    let at = start_index(events, 0, "rootfile"@);
    if starts_at(events, at, "rootfile"@) {
        match attribute_value(attributes_of(events[at]), "full-path"@) {
            Some(path) => Ok(path),
            None => Err(EpubError::MalformedContainer),
        }
    } else if at < events.len() && events[at] is Malformed {
        Err(EpubError::MalformedXml)
    } else {
        Err(EpubError::MalformedContainer)
    }
}

/// What the result of locating the package document stands for in contracts.
pub open spec fn name_view(r: Result<String, EpubError>) -> Result<Seq<char>, EpubError> {
    match r {
        Ok(name) => Ok(name@),
        Err(e) => Err(e),
    }
}

/// Finds the name of the package document in a container descriptor given
/// as events.
pub fn content_file_name_in(events: &Vec<Event>) -> (r: Result<String, EpubError>)
    ensures
        name_view(r) == content_file_name(events_view(events@)),
{
    let at = find_start(events, 0, "rootfile");
    if at >= events.len() {
        return Err(EpubError::MalformedContainer);
    }
    match is_start_element(&events[at], "rootfile") {
        Some(attrs) => match get_attribute(attrs, "full-path") {
            Some(path) => Ok(path),
            None => Err(EpubError::MalformedContainer),
        },
        None => match &events[at] {
            Event::Malformed => Err(EpubError::MalformedXml),
            _ => Err(EpubError::MalformedContainer),
        },
    }
}

/// Finds the name of the package document of an archive. `container` is
/// the content of the archive's container descriptor, or `None` where the
/// archive has none.
pub fn get_content_file_name(container: Option<&[u8]>) -> (r: Result<String, EpubError>)
    ensures
        name_view(r) == match container {
            Some(bytes) => content_file_name(document_events(bytes@)),
            None => Err(EpubError::ContainerMissing),
        },
{
    match container {
        Some(bytes) => {
            let events = read_events(bytes);
            content_file_name_in(&events)
        },
        None => Err(EpubError::ContainerMissing),
    }
}

} // verus!
