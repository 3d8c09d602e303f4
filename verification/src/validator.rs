//! What the service says about SHACL validation of a payload that has not been
//! mapped to RDF.
use vstd::prelude::*;

use crate::json::{json_kind, json_kind_of, JsonKind};

verus! {

/// How the note names a kind of JSON value.
pub open spec fn kind_name(kind: JsonKind) -> Seq<char> {
    match kind {
        JsonKind::Object => "JSON object"@,
        JsonKind::Array => "JSON array"@,
        JsonKind::String => "JSON string"@,
        JsonKind::Number => "JSON number"@,
        JsonKind::Bool => "JSON boolean"@,
        JsonKind::Null => "null JSON value"@,
    }
}

/// The note for a payload of the given kind.
pub open spec fn rdf_mapping_note_spec(kind: JsonKind) -> Seq<char> {
    "SHACL execution needs an RDF data graph; the current request payload is a "@ + kind_name(kind)
        + " and no RDF mapping/serialization step is implemented yet."@
}

/// The note for a payload of kind `kind`.
pub fn rdf_mapping_note(kind: JsonKind) -> (r: String)
    ensures
        r@ == rdf_mapping_note_spec(kind),
{
    let name = match kind {
        JsonKind::Object => "JSON object",
        JsonKind::Array => "JSON array",
        JsonKind::String => "JSON string",
        JsonKind::Number => "JSON number",
        JsonKind::Bool => "JSON boolean",
        JsonKind::Null => "null JSON value",
    };
    let mut note = "SHACL execution needs an RDF data graph; the current request payload is a ".to_owned();
    note.append(name);
    note.append(" and no RDF mapping/serialization step is implemented yet.");
    note
}

/// The note for `payload`, naming the kind of JSON value it is.
pub fn payload_requires_rdf_mapping_note(payload: &serde_json::Value) -> (r: String)
    ensures
        r@ == rdf_mapping_note_spec(json_kind_of(*payload)),
{
    let kind = json_kind(payload);
    rdf_mapping_note(kind)
}

} // verus!
