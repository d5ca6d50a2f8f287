//! Identifiers of database documents.

use vstd::prelude::*;

verus! {

/// The twelve bytes of a database document's identifier.
#[derive(Clone, Copy, Debug, PartialEq, Eq, Hash)]
pub struct ObjectId {
    /// The raw bytes of the identifier.
    pub bytes: [u8; 12],
}

/// Draws a fresh identifier from `mongodb::bson::oid::ObjectId::new`, which
/// combines the time, a per-process random value and a counter. Which
/// identifier comes out is left unsaid.
#[verifier::external_body]
fn new_object_id_bytes() -> [u8; 12] {
    mongodb::bson::oid::ObjectId::new().bytes()
}

impl ObjectId {
    /// Creates a fresh identifier.
    pub fn new() -> (id: ObjectId) {
        ObjectId { bytes: new_object_id_bytes() }
    }

    /// The identifier with the given bytes.
    pub fn from_bytes(bytes: [u8; 12]) -> (id: ObjectId)
        ensures
            id.bytes == bytes,
    {
        ObjectId { bytes }
    }
}

} // verus!
