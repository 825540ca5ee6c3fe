//! The schema of a table that holds nothing but identifiers.

use crate::table::{DataType, Field, FieldSpec, Schema};
use vstd::prelude::*;

verus! {

/// A schema with the single field `id`, a 32-bit signed integer that cannot
/// be null.
pub fn gen_arrow_schema() -> (s: Schema)
    ensures
        s@ == seq![FieldSpec { name: "id"@, data_type: DataType::Int32, nullable: false }],
{
    let mut fields: Vec<Field> = Vec::new();
    fields.push(Field::new("id", DataType::Int32, false));
    let s = Schema { fields };
    assert(s@ =~= seq![FieldSpec { name: "id"@, data_type: DataType::Int32, nullable: false }]);
    s
}

} // verus!
