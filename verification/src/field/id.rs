//! Field profile identity: a field name under one shape with one observed
//! type.

use vstd::prelude::*;

use crate::util::hash::{fnv64, stable_hex};
use crate::util::json_type::{JsonType, json_type_name};
use crate::util::text::{hex16, push_char, push_str};
use vstd::utf8::encode_utf8;

verus! {

/// The unit separator that joins the parts of identifier inputs.
pub open spec fn sep() -> Seq<char> {
    seq!['\x1f']
}

/// The hash input of a field profile: shape, field name and type name,
/// separated by unit separators.
pub open spec fn field_profile_input(shape_id: Seq<char>, field_name: Seq<char>, observed_type: JsonType) -> Seq<char> {
    shape_id + sep() + field_name + sep() + json_type_name(observed_type)
}

pub open spec fn field_profile_id_text(shape_id: Seq<char>, field_name: Seq<char>, observed_type: JsonType) -> Seq<char> {
    hex16(fnv64(encode_utf8(field_profile_input(shape_id, field_name, observed_type))))
}

pub fn field_profile_id(shape_id: &str, field_name: &str, observed_type: JsonType) -> (id: String)
    ensures
        id@ == field_profile_id_text(shape_id@, field_name@, observed_type),
{
    let mut input = String::new();
    push_str(&mut input, shape_id);
    push_char(&mut input, '\x1f');
    push_str(&mut input, field_name);
    push_char(&mut input, '\x1f');
    push_str(&mut input, observed_type.as_sql_str());
    assert(input@ =~= field_profile_input(shape_id@, field_name@, observed_type));
    stable_hex(input.as_str().as_bytes())
}

} // verus!
