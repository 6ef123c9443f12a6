//! The tables a refs database must hold.

use vstd::prelude::*;

use crate::error::ProfileError;
use crate::util::text::{compare_text, push_str, str_to_string};

verus! {

/// The tables every refs database must contain, in the order they are
/// checked.
pub const REQUIRED_TABLES: [&'static str; 9] = [
    "schema_paths",
    "array_index_refs",
    "schema_definitions",
    "schema_object_counts",
    "schema_field_counts",
    "schema_site_counts",
    "schema_site_field_counts",
    "schema_site_presence_shapes",
    "schema_site_presence_shape_limits",
];

pub open spec fn required_tables() -> Seq<Seq<char>> {
    seq![
        "schema_paths"@,
        "array_index_refs"@,
        "schema_definitions"@,
        "schema_object_counts"@,
        "schema_field_counts"@,
        "schema_site_counts"@,
        "schema_site_field_counts"@,
        "schema_site_presence_shapes"@,
        "schema_site_presence_shape_limits"@,
    ]
}

pub open spec fn missing_table_message(table: Seq<char>) -> Seq<char> {
    "refs database is missing required table: "@ + table
}

/// The first of `tables` that `present` does not name.
pub open spec fn first_missing(tables: Seq<Seq<char>>, present: Seq<Seq<char>>) -> Option<Seq<char>>
    decreases tables.len(),
{
    if tables.len() == 0 {
        None
    } else if !present.contains(tables[0]) {
        Some(tables[0])
    } else {
        first_missing(tables.drop_first(), present)
    }
}

fn names_table(present: &Vec<String>, table: &str) -> (found: bool)
    ensures
        found == present@.map_values(|name: String| name@).contains(table@),
{
    let ghost names = present@.map_values(|name: String| name@);
    let mut index: usize = 0;
    while index < present.len()
        invariant
            index <= present@.len(),
            names == present@.map_values(|name: String| name@),
            forall|k: int| 0 <= k < index ==> (#[trigger] present@[k])@ != table@,
        decreases present@.len() - index,
    {
        if compare_text(present[index].as_str(), table) == 0 {
            assert(names[index as int] == table@);
            return true;
        }
        index = index + 1;
    }
    assert forall|k: int| 0 <= k < names.len() implies #[trigger] names[k] != table@ by {
        assert(names[k] == present@[k]@);
    }
    false
}

/// Checks that the refs database has every required table, given the
/// names of the tables it has.
pub fn validate_required_tables(present: &Vec<String>) -> (result: Result<(), ProfileError>)
    ensures
        match first_missing(required_tables(), present@.map_values(|name: String| name@)) {
            None => result is Ok,
            Some(table) => result is Err && result->Err_0 is InvalidConfig
                && result->Err_0->InvalidConfig_0@ == missing_table_message(table),
        },
{
    let ghost names = present@.map_values(|name: String| name@);
    let tables = REQUIRED_TABLES;
    let ghost expected = required_tables();
    assert(tables@.map_values(|t: &str| t@) =~= expected);
    let mut index: usize = 0;
    assert(expected.skip(0) =~= expected);
    while index < 9
        invariant
            index <= 9,
            tables@.len() == 9,
            names == present@.map_values(|name: String| name@),
            forall|k: int| 0 <= k < 9 ==> (#[trigger] tables@[k])@ == expected[k],
            expected == required_tables(),
            first_missing(expected, names) == first_missing(expected.skip(index as int), names),
        decreases 9 - index,
    {
        let table = tables[index];
        assert(expected.skip(index as int).drop_first() =~= expected.skip(index + 1));
        assert(expected.skip(index as int)[0] == expected[index as int]);
        if !names_table(present, table) {
            let mut message = str_to_string("refs database is missing required table: ");
            push_str(&mut message, table);
            return Err(ProfileError::InvalidConfig(message));
        }
        index = index + 1;
    }
    assert(expected.skip(9) =~= Seq::<Seq<char>>::empty());
    Ok(())
}

} // verus!
