//! Building the refs index from the rows of a refs database.

use vstd::prelude::*;

use crate::ProfileWarning;
use crate::error::ProfileError;
use crate::refs::contract::{first_missing, missing_table_message, required_tables, validate_required_tables};
use crate::refs::site::{RefsIndex, SiteContext, SitePresenceShapeSeed};
use crate::util::table::entry_value;
use crate::util::text::{compare_text, push_str, str_to_string};

verus! {

pub const W_REFS_PRESENCE_SHAPES_TRUNCATED: &'static str = "W_REFS_PRESENCE_SHAPES_TRUNCATED";

#[derive(Debug)]
pub struct LoadedRefs {
    pub index: RefsIndex,
    pub warnings: Vec<ProfileWarning>,
}

/// A row of the site counts joined with the schema paths:
/// `(site_path, schema_path, object_path)`.
#[derive(Debug, Clone)]
pub struct SiteRow {
    pub site_path: String,
    pub schema_path: String,
    pub object_path: Option<String>,
}

/// A site whose presence shapes were truncated:
/// `(schema_path, site_path, site_kind)`.
#[derive(Debug, Clone)]
pub struct TruncatedSiteRow {
    pub schema_path: String,
    pub site_path: String,
    pub site_kind: String,
}

/// A presence shape row joined with the schema paths.
#[derive(Debug, Clone)]
pub struct PresenceShapeRow {
    pub schema_path: String,
    pub site_path: String,
    pub site_kind: String,
    pub present_fields_json: String,
    pub object_path: Option<String>,
}

/// What `serde_json::from_str::<Vec<String>>` gives for a text: the list of
/// strings, or the parser's error message.
pub uninterp spec fn parsed_string_list(text: Seq<char>) -> Result<Seq<Seq<char>>, Seq<char>>;

/// Calls `serde_json::from_str::<Vec<String>>` on `text`. The contract ties
/// the outcome to the text by a name; it says nothing of which texts parse.
#[verifier::external_body]
fn parse_string_list(text: &str) -> (parsed: Result<Vec<String>, String>)
    ensures
        match parsed {
            Ok(names) => parsed_string_list(text@) == Ok::<Seq<Seq<char>>, Seq<char>>(
                names@.map_values(|name: String| name@),
            ),
            Err(message) => parsed_string_list(text@) == Err::<Seq<Seq<char>>, Seq<char>>(message@),
        },
{
    match serde_json::from_str::<Vec<String>>(text) {
        Ok(names) => Ok(names),
        Err(error) => Err(error.to_string()),
    }
}

/// The schema path that the last of `rows` for `canonical_path` records.
pub open spec fn last_schema_row(rows: Seq<(String, String)>, canonical_path: Seq<char>) -> Option<String>
    decreases rows.len(),
{
    if rows.len() == 0 {
        None
    } else if rows.last().0@ == canonical_path {
        Some(rows.last().1)
    } else {
        last_schema_row(rows.drop_last(), canonical_path)
    }
}

/// The last of `rows` for `site_path`.
pub open spec fn last_site_row(rows: Seq<SiteRow>, site_path: Seq<char>) -> Option<SiteRow>
    decreases rows.len(),
{
    if rows.len() == 0 {
        None
    } else if rows.last().site_path@ == site_path {
        Some(rows.last())
    } else {
        last_site_row(rows.drop_last(), site_path)
    }
}

/// Whether some canonical path maps to `schema_path`.
pub open spec fn schema_has_canonical(schema: Seq<(String, String)>, schema_path: Seq<char>) -> bool {
    exists|i: int| 0 <= i < schema.len() && (#[trigger] schema[i]).1@ == schema_path
}

/// The canonical path of a site: the joined object path when there is one;
/// else a canonical path that the index maps to the site's schema; else the
/// schema path itself.
pub open spec fn canonical_choice_ok(
    schema: Seq<(String, String)>,
    object_path: Option<String>,
    schema_path: Seq<char>,
    canonical: Seq<char>,
) -> bool {
    match object_path {
        Some(path) => canonical == path@,
        None => if schema_has_canonical(schema, schema_path) {
            entry_value(schema, canonical) is Some && entry_value(schema, canonical)->Some_0@ == schema_path
        } else {
            canonical == schema_path
        },
    }
}

/// The context recorded for a site row.
pub open spec fn site_context_ok(schema: Seq<(String, String)>, row: SiteRow, site: SiteContext) -> bool {
    &&& canonical_choice_ok(schema, row.object_path, row.schema_path@, site.canonical_path@)
    &&& site.site_path is Some && site.site_path->Some_0@ == row.site_path@
    &&& site.schema_path@ == row.schema_path@
}

/// Whether `(schema_path, site_path, site_kind)` is among the truncated sites.
pub open spec fn is_truncated(rows: Seq<TruncatedSiteRow>, schema_path: Seq<char>, site_path: Seq<char>, site_kind: Seq<char>) -> bool {
    exists|i: int| 0 <= i < rows.len() && (#[trigger] rows[i]).schema_path@ == schema_path
        && rows[i].site_path@ == site_path && rows[i].site_kind@ == site_kind
}

pub open spec fn invalid_field_list_message(site_path: Seq<char>, error: Seq<char>) -> Seq<char> {
    "invalid refs presence shape field list for "@ + site_path + ": "@ + error
}

/// The seed recorded for a presence shape row whose field list parsed to
/// `field_names`.
pub open spec fn seed_ok(
    schema: Seq<(String, String)>,
    truncated: Seq<TruncatedSiteRow>,
    row: PresenceShapeRow,
    field_names: Seq<Seq<char>>,
    seed: SitePresenceShapeSeed,
) -> bool {
    &&& canonical_choice_ok(schema, row.object_path, row.schema_path@, seed.canonical_path@)
    &&& seed.site_path is Some && seed.site_path->Some_0@ == row.site_path@
    &&& seed.schema_path@ == row.schema_path@
    &&& seed.field_names@.map_values(|name: String| name@) == field_names
    &&& seed.truncated == is_truncated(truncated, row.schema_path@, row.site_path@, row.site_kind@)
}

/// The index of the first row whose field list does not parse.
pub open spec fn first_unparsed(rows: Seq<PresenceShapeRow>) -> Option<int> {
    if exists|i: int| 0 <= i < rows.len() && (#[trigger] parsed_string_list(rows[i].present_fields_json@)) is Err {
        Some(choose|i: int| 0 <= i < rows.len() && (#[trigger] parsed_string_list(rows[i].present_fields_json@)) is Err
            && forall|j: int| 0 <= j < i ==> (#[trigger] parsed_string_list(rows[j].present_fields_json@)) is Ok)
    } else {
        None
    }
}

fn canonical_for_site(index: &RefsIndex, object_path: &Option<String>, schema_path: &String) -> (canonical: String)
    requires
        index.wf(),
    ensures
        canonical_choice_ok(index.schema_entries(), *object_path, schema_path@, canonical@),
{
    match object_path {
        Some(path) => path.clone(),
        None => match index.canonical_for_schema(schema_path.as_str()) {
            Some(canonical) => canonical,
            None => schema_path.clone(),
        },
    }
}

fn truncated_contains(rows: &Vec<TruncatedSiteRow>, schema_path: &str, site_path: &str, site_kind: &str) -> (found: bool)
    ensures
        found == is_truncated(rows@, schema_path@, site_path@, site_kind@),
{
    let mut index: usize = 0;
    while index < rows.len()
        invariant
            index <= rows@.len(),
            forall|k: int| 0 <= k < index ==> !((#[trigger] rows@[k]).schema_path@ == schema_path@
                && rows@[k].site_path@ == site_path@ && rows@[k].site_kind@ == site_kind@),
        decreases rows@.len() - index,
    {
        let row = &rows[index];
        if compare_text(row.schema_path.as_str(), schema_path) == 0 && compare_text(row.site_path.as_str(), site_path) == 0
            && compare_text(row.site_kind.as_str(), site_kind) == 0 {
            return true;
        }
        index = index + 1;
    }
    false
}

/// The seed of one presence shape row, given what parsing its field list
/// gave: the seed, or the error that names the site and the parser's
/// message.
pub fn presence_seed_from_row(
    index: &RefsIndex,
    truncated: &Vec<TruncatedSiteRow>,
    row: &PresenceShapeRow,
    parsed: Result<Vec<String>, String>,
) -> (seed: Result<SitePresenceShapeSeed, ProfileError>)
    requires
        index.wf(),
    ensures
        match parsed {
            Ok(names) => seed is Ok && seed_ok(index.schema_entries(), truncated@, *row, names@.map_values(|n: String| n@), seed->Ok_0),
            Err(message) => seed is Err && seed->Err_0 is InvalidConfig
                && seed->Err_0->InvalidConfig_0@ == invalid_field_list_message(row.site_path@, message@),
        },
{
    match parsed {
        Ok(field_names) => {
            let canonical_path = canonical_for_site(index, &row.object_path, &row.schema_path);
            let is_cut = truncated_contains(
                truncated,
                row.schema_path.as_str(),
                row.site_path.as_str(),
                row.site_kind.as_str(),
            );
            Ok(SitePresenceShapeSeed {
                canonical_path,
                site_path: Some(row.site_path.clone()),
                schema_path: row.schema_path.clone(),
                field_names,
                truncated: is_cut,
            })
        },
        Err(message) => {
            let mut text = str_to_string("invalid refs presence shape field list for ");
            push_str(&mut text, row.site_path.as_str());
            push_str(&mut text, ": ");
            push_str(&mut text, message.as_str());
            Err(ProfileError::InvalidConfig(text))
        },
    }
}

fn load_schema_by_canonical(rows: &Vec<(String, String)>) -> (index: RefsIndex)
    ensures
        index.wf(),
        forall|k: Seq<char>| #[trigger] index.schema_of(k) == last_schema_row(rows@, k),
        index.site_entries() == Seq::<(String, SiteContext)>::empty(),
        index.shape_seeds() == Seq::<SitePresenceShapeSeed>::empty(),
        !index.shapes_truncated(),
{
    let mut index = RefsIndex::new();
    let mut position: usize = 0;
    while position < rows.len()
        invariant
            position <= rows@.len(),
            index.wf(),
            forall|k: Seq<char>| #[trigger] index.schema_of(k) == last_schema_row(rows@.subrange(0, position as int), k),
            index.site_entries() == Seq::<(String, SiteContext)>::empty(),
            index.shape_seeds() == Seq::<SitePresenceShapeSeed>::empty(),
            !index.shapes_truncated(),
        decreases rows@.len() - position,
    {
        let row = &rows[position];
        index.insert_schema(row.0.clone(), row.1.clone());
        proof {
            let prefix = rows@.subrange(0, position + 1);
            assert(prefix.drop_last() =~= rows@.subrange(0, position as int));
            assert(prefix.last() == rows@[position as int]);
        }
        position = position + 1;
    }
    assert(rows@.subrange(0, rows@.len() as int) =~= rows@);
    index
}

fn load_site_contexts(index: &mut RefsIndex, rows: &Vec<SiteRow>)
    requires
        old(index).wf(),
        old(index).site_entries() == Seq::<(String, SiteContext)>::empty(),
    ensures
        final(index).wf(),
        final(index).schema_entries() == old(index).schema_entries(),
        final(index).shape_seeds() == old(index).shape_seeds(),
        final(index).shapes_truncated() == old(index).shapes_truncated(),
        forall|k: Seq<char>| match last_site_row(rows@, k) {
            None => (#[trigger] final(index).site_of(k)) is None,
            Some(row) => final(index).site_of(k) is Some
                && site_context_ok(old(index).schema_entries(), row, final(index).site_of(k)->Some_0),
        },
{
    let ghost start = *index;
    let mut position: usize = 0;
    assert forall|k: Seq<char>| #[trigger] index.site_of(k) is None by {
        assert(!crate::util::table::entries_have_key(index.site_entries(), k));
    }
    while position < rows.len()
        invariant
            position <= rows@.len(),
            index.wf(),
            start.wf(),
            index.schema_entries() == start.schema_entries(),
            index.shape_seeds() == start.shape_seeds(),
            index.shapes_truncated() == start.shapes_truncated(),
            forall|k: Seq<char>| match last_site_row(rows@.subrange(0, position as int), k) {
                None => (#[trigger] index.site_of(k)) is None,
                Some(row) => index.site_of(k) is Some && site_context_ok(start.schema_entries(), row, index.site_of(k)->Some_0),
            },
        decreases rows@.len() - position,
    {
        let row = &rows[position];
        let canonical_path = canonical_for_site(index, &row.object_path, &row.schema_path);
        let site = SiteContext {
            canonical_path,
            site_path: Some(row.site_path.clone()),
            schema_path: row.schema_path.clone(),
        };
        let ghost before = *index;
        index.insert_site(row.site_path.clone(), site);
        proof {
            let prefix = rows@.subrange(0, position + 1);
            assert(prefix.drop_last() =~= rows@.subrange(0, position as int));
            assert(prefix.last() == rows@[position as int]);
            assert forall|k: Seq<char>| match last_site_row(prefix, k) {
                None => (#[trigger] index.site_of(k)) is None,
                Some(r) => index.site_of(k) is Some && site_context_ok(start.schema_entries(), r, index.site_of(k)->Some_0),
            } by {
                if k != row.site_path@ {
                    assert(index.site_of(k) == before.site_of(k));
                }
            }
        }
        position = position + 1;
    }
    assert(rows@.subrange(0, rows@.len() as int) =~= rows@);
}

/// Builds the refs index from the rows of a refs database: the names of
/// its tables; `(object_path, schema_path)` rows of its schema paths; its
/// site rows; its truncated presence-shape sites; and its presence shape
/// rows, each in the database's order.
pub fn load_refs_index(
    table_names: &Vec<String>,
    schema_rows: &Vec<(String, String)>,
    site_rows: &Vec<SiteRow>,
    truncated_rows: &Vec<TruncatedSiteRow>,
    shape_rows: &Vec<PresenceShapeRow>,
) -> (result: Result<LoadedRefs, ProfileError>)
    ensures
        first_missing(required_tables(), table_names@.map_values(|name: String| name@)) is Some ==> result is Err
            && result->Err_0 is InvalidConfig
            && result->Err_0->InvalidConfig_0@ == missing_table_message(
                first_missing(required_tables(), table_names@.map_values(|name: String| name@))->Some_0,
            ),
        first_missing(required_tables(), table_names@.map_values(|name: String| name@)) is None ==> match first_unparsed(shape_rows@) {
            Some(i) => result is Err && result->Err_0 is InvalidConfig
                && result->Err_0->InvalidConfig_0@ == invalid_field_list_message(
                    shape_rows@[i].site_path@,
                    parsed_string_list(shape_rows@[i].present_fields_json@)->Err_0,
                ),
            None => result is Ok,
        },
        match result {
            Ok(loaded) => {
                let index = loaded.index;
                &&& index.wf()
                &&& forall|k: Seq<char>| #[trigger] index.schema_of(k) == last_schema_row(schema_rows@, k)
                &&& forall|k: Seq<char>| match last_site_row(site_rows@, k) {
                    None => (#[trigger] index.site_of(k)) is None,
                    Some(row) => index.site_of(k) is Some
                        && site_context_ok(index.schema_entries(), row, index.site_of(k)->Some_0),
                }
                &&& index.shapes_truncated() == (truncated_rows@.len() > 0)
                &&& index.shape_seeds().len() == shape_rows@.len()
                &&& forall|i: int| 0 <= i < shape_rows@.len() ==> parsed_string_list(shape_rows@[i].present_fields_json@) is Ok
                    && seed_ok(
                        index.schema_entries(),
                        truncated_rows@,
                        #[trigger] shape_rows@[i],
                        parsed_string_list(shape_rows@[i].present_fields_json@)->Ok_0,
                        index.shape_seeds()[i],
                    )
                &&& loaded.warnings@.len() == (if truncated_rows@.len() > 0 { 1int } else { 0int })
                &&& truncated_rows@.len() > 0 ==> loaded.warnings@[0].code@ == W_REFS_PRESENCE_SHAPES_TRUNCATED@
                    && loaded.warnings@[0].message@ == "refs database indicates truncated site presence shapes"@
            },
            Err(_) => true,
        },
{
    match validate_required_tables(table_names) {
        Ok(()) => {},
        Err(error) => {
            return Err(error);
        },
    }
    let mut index = load_schema_by_canonical(schema_rows);
    let ghost schemas_only = index;
    load_site_contexts(&mut index, site_rows);
    let ghost mapped = index;
    assert forall|k: Seq<char>| #[trigger] index.schema_of(k) == last_schema_row(schema_rows@, k) by {
        assert(schemas_only.schema_of(k) == last_schema_row(schema_rows@, k));
    }
    let mut seeds: Vec<SitePresenceShapeSeed> = Vec::new();
    let mut position: usize = 0;
    while position < shape_rows.len()
        invariant
            position <= shape_rows@.len(),
            index == mapped,
            index.wf(),
            first_missing(required_tables(), table_names@.map_values(|name: String| name@)) is None,
            forall|k: Seq<char>| #[trigger] index.schema_of(k) == last_schema_row(schema_rows@, k),
            forall|k: Seq<char>| match last_site_row(site_rows@, k) {
                None => (#[trigger] index.site_of(k)) is None,
                Some(row) => index.site_of(k) is Some
                    && site_context_ok(index.schema_entries(), row, index.site_of(k)->Some_0),
            },
            seeds@.len() == position,
            forall|i: int| 0 <= i < position ==> parsed_string_list(shape_rows@[i].present_fields_json@) is Ok
                && seed_ok(
                    index.schema_entries(),
                    truncated_rows@,
                    #[trigger] shape_rows@[i],
                    parsed_string_list(shape_rows@[i].present_fields_json@)->Ok_0,
                    seeds@[i],
                ),
        decreases shape_rows@.len() - position,
    {
        let row = &shape_rows[position];
        let parsed = parse_string_list(row.present_fields_json.as_str());
        let seed = presence_seed_from_row(&index, truncated_rows, row, parsed);
        match seed {
            Ok(seed) => {
                seeds.push(seed);
            },
            Err(error) => {
                proof {
                    assert(parsed_string_list(shape_rows@[position as int].present_fields_json@) is Err);
                    assert(first_unparsed(shape_rows@) == Some(position as int)) by {
                        let w = position as int;
                        assert(0 <= w < shape_rows@.len() && parsed_string_list(shape_rows@[w].present_fields_json@) is Err);
                        let c = choose|i: int| 0 <= i < shape_rows@.len()
                            && (#[trigger] parsed_string_list(shape_rows@[i].present_fields_json@)) is Err
                            && forall|j: int| 0 <= j < i ==> (#[trigger] parsed_string_list(shape_rows@[j].present_fields_json@)) is Ok;
                        assert(forall|j: int| 0 <= j < w ==> (#[trigger] parsed_string_list(shape_rows@[j].present_fields_json@)) is Ok);
                        if c < w {
                            assert(parsed_string_list(shape_rows@[c].present_fields_json@) is Ok);
                        }
                        if c > w {
                            assert(parsed_string_list(shape_rows@[w].present_fields_json@) is Ok);
                        }
                    }
                }
                return Err(error);
            },
        }
        position = position + 1;
    }
    proof {
        assert forall|i: int| 0 <= i < shape_rows@.len() implies (#[trigger] parsed_string_list(shape_rows@[i].present_fields_json@)) is Ok by {
            assert(parsed_string_list(shape_rows@[i].present_fields_json@) is Ok);
        }
        assert(first_unparsed(shape_rows@) is None);
    }
    let ghost before_shapes = index;
    index.set_presence_shapes(seeds, truncated_rows.len() > 0);
    assert forall|k: Seq<char>| #[trigger] index.schema_of(k) == last_schema_row(schema_rows@, k) by {
        assert(before_shapes.schema_of(k) == last_schema_row(schema_rows@, k));
    }
    assert forall|k: Seq<char>| match last_site_row(site_rows@, k) {
        None => (#[trigger] index.site_of(k)) is None,
        Some(row) => index.site_of(k) is Some
            && site_context_ok(index.schema_entries(), row, index.site_of(k)->Some_0),
    } by {
        assert(before_shapes.site_of(k) == index.site_of(k));
    }
    let mut warnings: Vec<ProfileWarning> = Vec::new();
    if truncated_rows.len() > 0 {
        warnings.push(ProfileWarning {
            code: str_to_string(W_REFS_PRESENCE_SHAPES_TRUNCATED),
            message: str_to_string("refs database indicates truncated site presence shapes"),
        });
    }
    Ok(LoadedRefs { index, warnings })
}

} // verus!
