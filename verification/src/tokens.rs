//! The XML event stream, reduced to what the response reader needs:
//! element boundaries by local name, character data, and a terminal
//! fault. The tokenizer itself is an outside collaborator; the reader's
//! logic is stated and verified over these tokens.

use vstd::prelude::*;

verus! {

/// The mathematical view of one tokenizer event.
pub enum TokenView {
    /// Start of an element, by local name.
    Start(Seq<char>),
    /// End of an element, by local name.
    End(Seq<char>),
    /// Character data between tags.
    Text(Seq<char>),
    /// Any other event (document boundaries, comments, whitespace, ...).
    Other,
    /// A tokenizer error; nothing follows it.
    Fault,
}

/// One event from the XML tokenizer.
pub enum XmlToken {
    /// Start of an element, by local name.
    Start(String),
    /// End of an element, by local name.
    End(String),
    /// Character data between tags.
    Text(String),
    /// Any other event.
    Other,
    /// A tokenizer error; the stream ends here.
    Fault,
}

impl View for XmlToken {
    type V = TokenView;

    open spec fn view(&self) -> TokenView {
        match self {
            XmlToken::Start(n) => TokenView::Start(n@),
            XmlToken::End(n) => TokenView::End(n@),
            XmlToken::Text(t) => TokenView::Text(t@),
            XmlToken::Other => TokenView::Other,
            XmlToken::Fault => TokenView::Fault,
        }
    }
}

/// The views of a token sequence, element by element.
pub open spec fn token_views(ts: Seq<XmlToken>) -> Seq<TokenView> {
    ts.map_values(|t: XmlToken| t@)
}

/// The event stream that the XML tokenizer yields for a given input
/// text; it depends on that text alone.
pub uninterp spec fn xml_tokens_of(s: Seq<char>) -> Seq<TokenView>;

/// Relies on xml::reader::EventReader: iterating it yields the events
/// of the document in order and stops after the end of the document or
/// the first error.
#[verifier::external_body]
pub fn tokenize(s: &str) -> (r: Vec<XmlToken>)
    ensures
        token_views(r@) == xml_tokens_of(s@),
{
    let mut out = Vec::new();
    for e in xml::reader::EventReader::from_str(s) {
        out.push(match e {
            Ok(xml::reader::XmlEvent::StartElement { name, .. }) => XmlToken::Start(name.local_name),
            Ok(xml::reader::XmlEvent::EndElement { name }) => XmlToken::End(name.local_name),
            Ok(xml::reader::XmlEvent::Characters(t)) => XmlToken::Text(t),
            Ok(_) => XmlToken::Other,
            Err(_) => XmlToken::Fault,
        });
    }
    out
}

} // verus!
