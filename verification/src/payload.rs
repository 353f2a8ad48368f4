//! Payloads: JSON objects that are attached to points.

use crate::blob::Blob;
use crate::json::{Json, JsonObject};
use vstd::prelude::*;

verus! {

/// A payload.
#[derive(Debug)]
pub struct Payload(pub JsonObject);

impl View for Payload {
    type V = Map<Seq<char>, Json>;

    open spec fn view(&self) -> Map<Seq<char>, Json> {
        self.0@
    }
}

impl Default for Payload {
    /// A payload without entries.
    fn default() -> (payload: Payload)
        ensures
            payload@ == crate::json::no_entries(),
    {
        Payload(JsonObject::new())
    }
}

impl Payload {
    /// The payload can be read when it was written: it is nested no deeper than can be read.
    pub open spec fn legible(self) -> bool {
        Json::Object(self@).nested_within(crate::text::MAX_NESTING as int)
    }

    /// Whether the payload can be read when it was written.
    pub fn is_legible(&self) -> (result: bool)
        ensures
            result == self.legible(),
    {
        self.0.is_nested_within(crate::text::MAX_NESTING)
    }

    /// It is certain that the payload comes back unchanged when it is written and read: it can be
    /// read, and no number in it is kept as a floating-point number.
    pub open spec fn exact(self) -> bool {
        &&& self.legible()
        &&& Json::Object(self@).float_free()
    }

    /// The payload comes back unchanged when it is written and read: its text is read as itself.
    pub open spec fn is_kept(self) -> bool {
        crate::text::parsed(self.encoding()) == Some(self@)
    }

    /// Whether it is certain from its nesting and its numbers that the payload comes back unchanged
    /// when it is written and read.
    pub fn is_exact(&self) -> (result: bool)
        ensures
            result == self.exact(),
    {
        self.is_legible() && self.0.is_float_free()
    }
}

impl Blob for Payload {
    open spec fn encoding(&self) -> Seq<u8> {
        crate::text::text_of(Json::Object(self@))
    }

    open spec fn decodes(data: Seq<u8>) -> bool {
        crate::text::parsed(data) is Some
    }

    open spec fn is_decoded(data: Seq<u8>, value: Payload) -> bool {
        &&& crate::text::parsed(data) == Some(value@)
        &&& value.legible()
    }

    open spec fn reads_back(&self) -> bool {
        crate::text::reads_back(self@)
    }

    fn to_bytes(&self) -> (data: Vec<u8>) {
        crate::text::write_object(&self.0)
    }

    fn is_encoding(data: &[u8]) -> (result: bool) {
        crate::text::read_object(data).is_some()
    }

    fn from_bytes(data: &[u8]) -> (value: Payload) {
        match crate::text::read_object(data) {
            Some(object) => Payload(object),
            None => {
                assert(false);
                Payload(JsonObject::new())
            },
        }
    }
}

}
