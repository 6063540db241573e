//! The values that flow through one proxied exchange.
use vstd::prelude::*;

verus! {

/// One header line: a name and a value, both as raw bytes.
#[derive(Clone, Debug)]
pub struct HeaderField {
    pub name: Vec<u8>,
    pub value: Vec<u8>,
}

impl View for HeaderField {
    type V = (Seq<u8>, Seq<u8>);

    open spec fn view(&self) -> (Seq<u8>, Seq<u8>) {
        (self.name@, self.value@)
    }
}

/// The abstract contents of a list of header fields.
pub open spec fn fields_view(v: Seq<HeaderField>) -> Seq<(Seq<u8>, Seq<u8>)> {
    v.map_values(|h: HeaderField| h@)
}

impl HeaderField {
    pub fn new(name: Vec<u8>, value: Vec<u8>) -> (r: HeaderField)
        ensures
            r.name@ == name@,
            r.value@ == value@,
    {
        HeaderField { name, value }
    }
}

/// A backend response after framing: status, headers in wire order, body.
#[derive(Clone, Debug)]
pub struct ParsedResponse {
    pub status: u16,
    /// Set when the status line held no code from 100 to 599 and `status`
    /// is the 500 default.
    pub status_defaulted: bool,
    pub headers: Vec<HeaderField>,
    pub body: Vec<u8>,
}

/// What is wrong with a response that is not framed.
#[derive(Clone, Copy, Debug, PartialEq, Eq, Structural)]
pub enum Malformation {
    /// No blank line separates head and body.
    MissingSeparator,
    /// The blank line comes first: there is no status line.
    EmptyHead,
}

/// Why a backend response could not be used.
#[derive(Clone, Copy, Debug, PartialEq, Eq, Structural)]
pub enum ParseError {
    /// The bytes are not well-formed UTF-8.
    EncodingError,
    MalformedResponse(Malformation),
}

} // verus!
