use profile_json_refs::error::ProfileError;
use profile_json_refs::refs::contract::{REQUIRED_TABLES, validate_required_tables};
use profile_json_refs::refs::resolver::RefsResolver;
use profile_json_refs::refs::site::{RefsIndex, SiteContext};
use profile_json_refs::refs::sqlite::{
    LoadedRefs, PresenceShapeRow, SiteRow, TruncatedSiteRow, W_REFS_PRESENCE_SHAPES_TRUNCATED,
    load_refs_index, presence_seed_from_row,
};
use profile_json_refs::scan::path::SourcePath;

const FIXTURE_TABLES: [&str; 9] = [
    "schema_paths",
    "array_index_refs",
    "schema_definitions",
    "schema_object_counts",
    "schema_field_counts",
    "schema_site_counts",
    "schema_site_field_counts",
    "schema_site_presence_shapes",
    "schema_site_presence_shape_limits",
];

fn tables_without(dropped: &str) -> Vec<String> {
    FIXTURE_TABLES
        .iter()
        .filter(|name| **name != dropped)
        .map(|name| name.to_string())
        .collect()
}

fn all_tables() -> Vec<String> {
    tables_without("")
}

fn schema_rows() -> Vec<(String, String)> {
    vec![("$".to_string(), "refs/root.json".to_string())]
}

fn site_rows() -> Vec<SiteRow> {
    vec![SiteRow {
        site_path: "$".to_string(),
        schema_path: "refs/root.json".to_string(),
        object_path: Some("$".to_string()),
    }]
}

fn truncated_rows(truncated: bool) -> Vec<TruncatedSiteRow> {
    if truncated {
        vec![TruncatedSiteRow {
            schema_path: "refs/root.json".to_string(),
            site_path: "$".to_string(),
            site_kind: "object".to_string(),
        }]
    } else {
        Vec::new()
    }
}

fn shape_rows() -> Vec<PresenceShapeRow> {
    vec![PresenceShapeRow {
        schema_path: "refs/root.json".to_string(),
        site_path: "$".to_string(),
        site_kind: "object".to_string(),
        present_fields_json: r#"["id"]"#.to_string(),
        object_path: Some("$".to_string()),
    }]
}

fn load_minimal(truncated: bool) -> Result<LoadedRefs, ProfileError> {
    load_refs_index(&all_tables(), &schema_rows(), &site_rows(), &truncated_rows(truncated), &shape_rows())
}

#[test]
fn fixture_with_required_tables_validates() {
    validate_required_tables(&all_tables()).expect("required refs tables should validate");
    assert_eq!(REQUIRED_TABLES.len(), 9);
}

#[test]
fn missing_schema_site_counts_fails_validation() {
    let err = validate_required_tables(&tables_without("schema_site_counts"))
        .expect_err("missing table should fail");

    assert!(
        err.message()
            .contains("refs database is missing required table: schema_site_counts")
    );
}

#[test]
fn missing_schema_site_presence_shapes_fails_validation() {
    let err = validate_required_tables(&tables_without("schema_site_presence_shapes"))
        .expect_err("missing table should fail");

    assert!(
        err.message()
            .contains("refs database is missing required table: schema_site_presence_shapes")
    );
}

#[test]
fn load_refs_index_maps_schema_site_and_presence_shape_seeds() {
    let loaded = load_minimal(false).expect("load refs index");

    assert!(loaded.warnings.is_empty());
    assert!(!loaded.index.presence_shape_truncated());
    assert_eq!(
        loaded.index.schema_for_canonical("$").as_deref(),
        Some("refs/root.json")
    );
    let site = loaded
        .index
        .site_for_source_path("$")
        .expect("site context for root source path");
    assert_eq!(site.canonical_path, "$");
    assert_eq!(site.site_path.as_deref(), Some("$"));
    assert_eq!(site.schema_path, "refs/root.json");
    assert_eq!(loaded.index.presence_shape_seeds().len(), 1);
    assert_eq!(loaded.index.presence_shape_seeds()[0].field_names, vec!["id"]);
    assert!(!loaded.index.presence_shape_seeds()[0].truncated);
}

#[test]
fn truncated_presence_shape_fixture_warns_but_does_not_fail() {
    let loaded = load_minimal(true).expect("truncated shapes should not fail");

    assert!(loaded.index.presence_shape_truncated());
    assert_eq!(loaded.warnings.len(), 1);
    assert_eq!(loaded.warnings[0].code, W_REFS_PRESENCE_SHAPES_TRUNCATED);
    assert!(loaded.index.presence_shape_seeds()[0].truncated);
}

#[test]
fn resolver_uses_refs_context_and_falls_back_to_canonical_guess() {
    let mut index = RefsIndex::new();
    index.insert_site(
        "$.items[0]".to_string(),
        SiteContext {
            canonical_path: "$.items[]".to_string(),
            site_path: Some("$.items[0]".to_string()),
            schema_path: "refs/root/items/item.json".to_string(),
        },
    );
    let resolver = RefsResolver::new(index);

    let mut resolved_path = SourcePath::root();
    resolved_path.push_field("items");
    resolved_path.push_index(0);
    let resolved = resolver.resolve_object(&resolved_path);
    assert!(resolved.resolved);
    assert_eq!(resolved.canonical_path, "$.items[]");
    assert_eq!(resolved.site_path.as_deref(), Some("$.items[0]"));
    assert_eq!(resolved.schema_path, "refs/root/items/item.json");

    let mut fallback_path = SourcePath::root();
    fallback_path.push_field("items");
    fallback_path.push_index(99);
    let fallback = resolver.resolve_object(&fallback_path);
    assert!(!fallback.resolved);
    assert_eq!(fallback.canonical_path, "$.items[]");
    assert_eq!(fallback.site_path.as_deref(), Some("$.items[99]"));
    assert_eq!(fallback.schema_path, "unknown");
}

#[test]
fn missing_table_stops_loading_before_rows_are_read() {
    let err = load_refs_index(
        &tables_without("schema_paths"),
        &schema_rows(),
        &site_rows(),
        &truncated_rows(false),
        &shape_rows(),
    )
    .expect_err("missing table should fail");
    assert_eq!(err.message(), "invalid config: refs database is missing required table: schema_paths");
}

#[test]
fn unparsable_present_fields_fail_loading() {
    let mut rows = shape_rows();
    rows[0].present_fields_json = "not json".to_string();
    let err = load_refs_index(&all_tables(), &schema_rows(), &site_rows(), &truncated_rows(false), &rows)
        .expect_err("bad field list should fail");
    assert!(matches!(err, ProfileError::InvalidConfig(_)));
    assert!(err.message().contains("$"));
}

#[test]
fn site_without_object_path_borrows_the_canonical_path_of_its_schema() {
    let sites = vec![SiteRow {
        site_path: "$.items[0]".to_string(),
        schema_path: "refs/root.json".to_string(),
        object_path: None,
    }];
    let loaded = load_refs_index(&all_tables(), &schema_rows(), &sites, &Vec::new(), &Vec::new())
        .expect("load refs index");
    let site = loaded.index.site_for_source_path("$.items[0]").unwrap();
    assert_eq!(site.canonical_path, "$");
    assert_eq!(loaded.index.canonical_for_schema("refs/root.json").as_deref(), Some("$"));

    let orphan = vec![SiteRow {
        site_path: "$.x".to_string(),
        schema_path: "refs/other.json".to_string(),
        object_path: None,
    }];
    let loaded = load_refs_index(&all_tables(), &schema_rows(), &orphan, &Vec::new(), &Vec::new())
        .expect("load refs index");
    assert_eq!(loaded.index.site_for_source_path("$.x").unwrap().canonical_path, "refs/other.json");
}

#[test]
fn presence_seed_takes_the_parse_result_it_is_given() {
    let index = RefsIndex::new();
    let row = &shape_rows()[0];
    let seed = presence_seed_from_row(&index, &truncated_rows(true), row, Ok(vec!["id".to_string()]))
        .expect("parsed list gives a seed");
    assert_eq!(seed.field_names, vec!["id"]);
    assert!(seed.truncated);
    assert_eq!(seed.canonical_path, "$");

    let err = presence_seed_from_row(&index, &Vec::new(), row, Err("expected value".to_string()))
        .expect_err("a parse error is reported");
    assert!(err.message().contains("expected value"));
}
