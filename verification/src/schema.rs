//! Field lookup in the index schema.

use tantivy::schema::Schema;
use vstd::prelude::*;

verus! {

/// Declares `tantivy::schema::Schema`, whose values are carried through as
/// they are.
#[verifier::external_type_specification]
#[verifier::external_body]
pub struct ExSchema(tantivy::schema::Schema);

/// What a schema holds, as far as queries are concerned: the name of each
/// field with the field's identifier.
pub uninterp spec fn schema_fields(schema: Schema) -> Map<Seq<char>, u32>;

/// The identifier registered under `name`, if there is one.
pub open spec fn lookup_field(fields: Map<Seq<char>, u32>, name: Seq<char>) -> Option<u32> {
    if fields.contains_key(name) {
        Some(fields[name])
    } else {
        None
    }
}

/// Calls `Schema::get_field` and keeps the identifier of the field found.
///
/// Trusted: the schema maps each field name to one identifier, and the call
/// answers with the identifier under `name`, or fails when there is none.
#[verifier::external_body]
pub(crate) fn get_field(schema: &Schema, name: &str) -> (r: Option<u32>)
    ensures
        r == lookup_field(schema_fields(*schema), name@),
{
    match schema.get_field(name) {
        Ok(field) => Some(field.field_id()),
        Err(_) => None,
    }
}

/// The schema has no field of the name that a query was to be sorted or
/// bounded by.
#[derive(Clone, Debug, PartialEq, Eq)]
pub struct UnknownField {
    pub name: String,
}

/// The identifier of the field named `name`, by which results are to be
/// sorted or bounded. Unlike a clause on an unknown field, which is dropped,
/// an unknown designated field is an error.
pub fn designated_field(schema: &Schema, name: &str) -> (r: Result<u32, UnknownField>)
    ensures
        match r {
            Ok(id) => lookup_field(schema_fields(*schema), name@) == Some(id),
            Err(error) => lookup_field(schema_fields(*schema), name@) is None && error.name@ == name@,
        },
{
    match get_field(schema, name) {
        Some(id) => Ok(id),
        None => Err(UnknownField { name: name.to_owned() }),
    }
}

} // verus!
