//! The bridge to the external tokenizer: raw bytes in, the library's
//! own events out.

use vstd::prelude::*;
use crate::events::Event;
use crate::events::ParseError;
use xml::reader::EventReader;
use xml::reader::XmlEvent;

verus! {

/// Tokenizes a complete document held in memory into the event alphabet
/// the tree builder consumes.
///
/// Relies on `xml::reader::EventReader`: it emits a document-start
/// before anything else, ends the stream with a document-end or a
/// tokenizing error, and carries local names and attribute lists on
/// element starts and ends. Element starts and ends keep only the local
/// name (namespaces are ignored); character runs become text events;
/// processing instructions, CDATA blocks, comments, whitespace runs and
/// doctype declarations all become trivia. A tokenizing failure is
/// returned as [`ParseError::TokenizeFailure`] with the tokenizer's
/// diagnostic.
#[verifier::external_body]
pub fn get_events(doc: &[u8]) -> Result<Vec<Event>, ParseError> {
    EventReader::new(doc).into_iter().map(|ev| match ev {
        Err(e) => Err(ParseError::TokenizeFailure(format!("{e:?}"))),
        Ok(XmlEvent::StartDocument { .. }) => Ok(Event::StartDocument),
        Ok(XmlEvent::EndDocument) => Ok(Event::EndDocument),
        Ok(XmlEvent::StartElement { name, attributes, .. }) => Ok(Event::StartElement {
            name: name.local_name,
            attributes: attributes.into_iter().map(|a| (a.name.local_name, a.value)).collect(),
        }),
        Ok(XmlEvent::EndElement { name }) => Ok(Event::EndElement { name: name.local_name }),
        Ok(XmlEvent::Characters(text)) => Ok(Event::Text(text)),
        Ok(_) => Ok(Event::Trivia),
    }).collect()
}

} // verus!
