//! The items of an XML document, as the `xml` crate's pull reader reports
//! them.
use vstd::prelude::*;
use xml::reader::{EventReader, XmlEvent};

verus! {

/// An attribute of an element: its local name and its value.
pub struct Attribute {
    pub name: String,
    pub value: String,
}

impl View for Attribute {
    type V = (Seq<char>, Seq<char>);

    open spec fn view(&self) -> (Seq<char>, Seq<char>) {
        (self.name@, self.value@)
    }
}

/// One event of the reader: a start tag, an end tag, character data, or
/// anything else (a declaration, a comment, whitespace, an error).
pub enum XmlItem {
    Start { name: String, attributes: Vec<Attribute> },
    End { name: String },
    Text { text: String },
    Other,
}

/// An item as a mathematical value.
pub enum XmlItemView {
    Start { name: Seq<char>, attributes: Seq<(Seq<char>, Seq<char>)> },
    End { name: Seq<char> },
    Text { text: Seq<char> },
    Other,
}

/// The views of a sequence of attributes.
pub open spec fn attribute_views(attributes: Seq<Attribute>) -> Seq<(Seq<char>, Seq<char>)> {
    attributes.map_values(|a: Attribute| a@)
}

impl View for XmlItem {
    type V = XmlItemView;

    open spec fn view(&self) -> XmlItemView {
        match self {
            XmlItem::Start { name, attributes } => XmlItemView::Start {
                name: name@,
                attributes: attribute_views(attributes@),
            },
            XmlItem::End { name } => XmlItemView::End { name: name@ },
            XmlItem::Text { text } => XmlItemView::Text { text: text@ },
            XmlItem::Other => XmlItemView::Other,
        }
    }
}

/// The views of a sequence of items.
pub open spec fn item_views(items: Seq<XmlItem>) -> Seq<XmlItemView> {
    items.map_values(|i: XmlItem| i@)
}

/// The items that the `xml` crate's `EventReader`, with its default
/// configuration, reports for the bytes of a document, in order, up to and
/// including the end of the document or the first error.
pub uninterp spec fn xml_items(document: Seq<u8>) -> Seq<XmlItemView>;

/// Runs `xml::reader::EventReader` over the document and keeps, of each
/// event, what a start tag, an end tag or character data holds (local names,
/// attribute values, text); any other event, an error among them, becomes
/// `Other`. The contract claims only that the result is the reader's
/// sequence of events for these bytes, `xml_items`.
#[verifier::external_body]
pub(crate) fn read_xml_items(document: &[u8]) -> (items: Vec<XmlItem>)
    ensures
        item_views(items@) == xml_items(document@),
{
    EventReader::new(document).into_iter().map(|event| match event {
        Ok(XmlEvent::StartElement { name, attributes, .. }) => XmlItem::Start {
            name: name.local_name,
            attributes: attributes.into_iter().map(
                |a| Attribute { name: a.name.local_name, value: a.value },
            ).collect(),
        },
        Ok(XmlEvent::EndElement { name }) => XmlItem::End { name: name.local_name },
        Ok(XmlEvent::Characters(text)) => XmlItem::Text { text },
        _ => XmlItem::Other,
    }).collect()
}

} // verus!
