//! Messages that describe a run for a viewer: each one is a piece of JSON
//! text, or the end of the run.

use vstd::prelude::*;

verus! {

/// What a message is: data, or the end of the run.
#[derive(Debug, Clone, Copy, PartialEq, Eq, Structural)]
pub enum Header {
    DATA,
    EOF,
}

/// A message to the viewer.
#[derive(Debug)]
pub struct MessageData {
    pub header: Header,
    pub json: String,
}

impl MessageData {
    /// A message that carries the JSON text `json`.
    pub fn data(json: String) -> (res: MessageData)
        ensures
            res.header == Header::DATA,
            res.json == json,
    {
        MessageData { header: Header::DATA, json }
    }

    /// The message that ends the run; it carries no text.
    pub fn end() -> (res: MessageData)
        ensures
            res.header == Header::EOF,
            res.json@ == Seq::<char>::empty(),
    {
        MessageData { header: Header::EOF, json: String::new() }
    }
}

} // verus!
