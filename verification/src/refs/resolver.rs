//! Resolving an object's source path to its canonical path, site and schema.

use vstd::prelude::*;

use crate::refs::site::{RefsIndex, SiteContext};
use crate::scan::path::{PathPartView, SourcePath, path_text};
use crate::util::text::str_to_string;

verus! {

#[derive(Debug, Clone, PartialEq, Eq)]
pub struct ResolvedObjectContext {
    pub canonical_path: String,
    pub site_path: Option<String>,
    pub schema_path: String,
    pub resolved: bool,
}

pub struct RefsResolver {
    index: RefsIndex,
}

pub open spec fn unknown_schema_text() -> Seq<char> {
    "unknown"@
}

pub open spec fn opt_text_view(text: Option<String>) -> Option<Seq<char>> {
    match text {
        Some(t) => Some(t@),
        None => None,
    }
}

/// Whether `context` is the context of an object at `path` under `index`:
/// the index's context for the exact source path when it has one, else the
/// path with indexes replaced by `[]` as canonical path, the source path as
/// site, and schema `unknown`.
pub open spec fn resolved_as(index: RefsIndex, path: Seq<PathPartView>, context: ResolvedObjectContext) -> bool {
    match index.site_of(path_text(path, false)) {
        Some(site) => context.resolved
            && context.canonical_path@ == site.canonical_path@
            && opt_text_view(context.site_path) == opt_text_view(site.site_path)
            && context.schema_path@ == site.schema_path@,
        None => !context.resolved
            && context.canonical_path@ == path_text(path, true)
            && opt_text_view(context.site_path) == Some(path_text(path, false))
            && context.schema_path@ == unknown_schema_text(),
    }
}

impl RefsResolver {
    pub closed spec fn index(&self) -> RefsIndex {
        self.index
    }

    pub fn new(index: RefsIndex) -> (resolver: Self)
        requires
            index.wf(),
        ensures
            resolver.index() == index,
    {
        Self { index }
    }

    /// The context of an object: the refs database's context for its exact
    /// source path when there is one, else its path with indexes replaced by
    /// `[]` as canonical path, its source path as site, and schema
    /// `unknown`.
    pub fn resolve_object(&self, path: &SourcePath) -> (context: ResolvedObjectContext)
        requires
            self.index().wf(),
        ensures
            resolved_as(self.index(), path.parts(), context),
    {
        let source_path = path.as_str();
        match self.index.site_for_source_path(source_path.as_str()) {
            Some(site) => ResolvedObjectContext {
                canonical_path: site.canonical_path.clone(),
                site_path: site.site_path.clone(),
                schema_path: site.schema_path.clone(),
                resolved: true,
            },
            None => ResolvedObjectContext {
                canonical_path: path.to_canonical_guess(),
                site_path: Some(source_path),
                schema_path: str_to_string("unknown"),
                resolved: false,
            },
        }
    }
}

} // verus!
