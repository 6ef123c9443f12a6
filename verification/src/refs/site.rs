//! What the refs database says about object sites: the schema of each
//! canonical path, the context of each source path, and the presence shapes
//! recorded per site.

use vstd::prelude::*;

use crate::util::table::{KeyedTable, entry_value, lemma_entry_value};
use crate::util::text::{compare_text, str_to_string};

verus! {

#[derive(Debug, Clone, PartialEq, Eq)]
pub struct SiteContext {
    pub canonical_path: String,
    pub site_path: Option<String>,
    pub schema_path: String,
}

#[derive(Debug, Clone, PartialEq, Eq)]
pub struct SitePresenceShapeSeed {
    pub canonical_path: String,
    pub site_path: Option<String>,
    pub schema_path: String,
    pub field_names: Vec<String>,
    pub truncated: bool,
}

/// The refs database's contexts, keyed by canonical path and by source path.
#[derive(Debug)]
pub struct RefsIndex {
    schema_by_canonical: KeyedTable<String, String>,
    site_by_source_path: KeyedTable<String, SiteContext>,
    presence_shape_seeds: Vec<SitePresenceShapeSeed>,
    presence_shape_truncated: bool,
}

impl RefsIndex {
    /// The canonical paths with their schema paths, in insertion order.
    pub closed spec fn schema_entries(&self) -> Seq<(String, String)> {
        self.schema_by_canonical.entries()
    }

    /// The source paths with their site contexts, in insertion order.
    pub closed spec fn site_entries(&self) -> Seq<(String, SiteContext)> {
        self.site_by_source_path.entries()
    }

    /// The presence shape seeds, in the database's order.
    pub closed spec fn shape_seeds(&self) -> Seq<SitePresenceShapeSeed> {
        self.presence_shape_seeds@
    }

    /// Whether any site's presence shapes were truncated.
    pub closed spec fn shapes_truncated(&self) -> bool {
        self.presence_shape_truncated
    }

    pub fn presence_shape_seeds(&self) -> (seeds: &Vec<SitePresenceShapeSeed>)
        ensures
            seeds@ == self.shape_seeds(),
    {
        &self.presence_shape_seeds
    }

    pub fn presence_shape_truncated(&self) -> (truncated: bool)
        ensures
            truncated == self.shapes_truncated(),
    {
        self.presence_shape_truncated
    }

    /// Neither table repeats a key.
    pub closed spec fn wf(&self) -> bool {
        self.schema_by_canonical.wf() && self.site_by_source_path.wf()
    }

    /// The schema path of a canonical path, if the index has one.
    pub open spec fn schema_of(&self, canonical_path: Seq<char>) -> Option<String> {
        entry_value(self.schema_entries(), canonical_path)
    }

    /// The context of a source path, if the index has one.
    pub open spec fn site_of(&self, source_path: Seq<char>) -> Option<SiteContext> {
        entry_value(self.site_entries(), source_path)
    }

    /// An empty index.
    pub fn new() -> (index: Self)
        ensures
            index.wf(),
            index.schema_entries() == Seq::<(String, String)>::empty(),
            index.site_entries() == Seq::<(String, SiteContext)>::empty(),
            index.shape_seeds() == Seq::<SitePresenceShapeSeed>::empty(),
            !index.shapes_truncated(),
    {
        RefsIndex {
            schema_by_canonical: KeyedTable::new(),
            site_by_source_path: KeyedTable::new(),
            presence_shape_seeds: Vec::new(),
            presence_shape_truncated: false,
        }
    }

    /// Records the schema path of a canonical path, replacing an earlier one.
    pub fn insert_schema(&mut self, canonical_path: String, schema_path: String)
        requires
            old(self).wf(),
        ensures
            final(self).wf(),
            final(self).schema_of(canonical_path@) == Some(schema_path),
            forall|k: Seq<char>| k != canonical_path@ ==> #[trigger] final(self).schema_of(k) == old(self).schema_of(k),
            final(self).site_entries() == old(self).site_entries(),
            final(self).shape_seeds() == old(self).shape_seeds(),
            final(self).shapes_truncated() == old(self).shapes_truncated(),
    {
        let ghost key = canonical_path@;
        self.schema_by_canonical.insert(canonical_path, schema_path);
        assert forall|k: Seq<char>| k != key implies #[trigger] self.schema_of(k) == old(self).schema_of(k) by {
            assert(self.schema_by_canonical.value_of(k) == old(self).schema_by_canonical.value_of(k));
        }
    }

    /// Records the context of a source path, replacing an earlier one.
    pub fn insert_site(&mut self, source_path: String, site: SiteContext)
        requires
            old(self).wf(),
        ensures
            final(self).wf(),
            final(self).site_of(source_path@) == Some(site),
            forall|k: Seq<char>| k != source_path@ ==> #[trigger] final(self).site_of(k) == old(self).site_of(k),
            final(self).schema_entries() == old(self).schema_entries(),
            final(self).shape_seeds() == old(self).shape_seeds(),
            final(self).shapes_truncated() == old(self).shapes_truncated(),
    {
        let ghost key = source_path@;
        self.site_by_source_path.insert(source_path, site);
        assert forall|k: Seq<char>| k != key implies #[trigger] self.site_of(k) == old(self).site_of(k) by {
            assert(self.site_by_source_path.value_of(k) == old(self).site_by_source_path.value_of(k));
        }
    }

    /// Records the presence shape seeds and whether any site's shapes were
    /// truncated.
    pub fn set_presence_shapes(&mut self, seeds: Vec<SitePresenceShapeSeed>, truncated: bool)
        requires
            old(self).wf(),
        ensures
            final(self).wf(),
            final(self).schema_entries() == old(self).schema_entries(),
            final(self).site_entries() == old(self).site_entries(),
            final(self).shape_seeds() == seeds@,
            final(self).shapes_truncated() == truncated,
    {
        self.presence_shape_seeds = seeds;
        self.presence_shape_truncated = truncated;
    }

    /// The schema path recorded for a canonical path.
    pub fn schema_for_canonical(&self, canonical_path: &str) -> (schema: Option<String>)
        requires
            self.wf(),
        ensures
            match schema {
                Some(s) => self.schema_of(canonical_path@) is Some && s@ == self.schema_of(canonical_path@)->Some_0@,
                None => self.schema_of(canonical_path@) is None,
            },
    {
        let key = str_to_string(canonical_path);
        match self.schema_by_canonical.get(&key) {
            Some(schema) => Some(schema.clone()),
            None => None,
        }
    }

    /// The context recorded for a source path.
    pub fn site_for_source_path(&self, source_path: &str) -> (site: Option<&SiteContext>)
        requires
            self.wf(),
        ensures
            match site {
                Some(s) => self.site_of(source_path@) == Some(*s),
                None => self.site_of(source_path@) is None,
            },
    {
        let key = str_to_string(source_path);
        self.site_by_source_path.get(&key)
    }

    /// A canonical path whose schema path is `schema_path`, if there is one.
    pub fn canonical_for_schema(&self, schema_path: &str) -> (canonical: Option<String>)
        requires
            self.wf(),
        ensures
            match canonical {
                Some(c) => self.schema_of(c@) is Some && self.schema_of(c@)->Some_0@ == schema_path@,
                None => forall|i: int| 0 <= i < self.schema_entries().len()
                    ==> (#[trigger] self.schema_entries()[i]).1@ != schema_path@,
            },
    {
        let count = self.schema_by_canonical.len();
        let mut index: usize = 0;
        while index < count
            invariant
                count == self.schema_entries().len(),
                index <= count,
                self.wf(),
                forall|i: int| 0 <= i < index ==> (#[trigger] self.schema_entries()[i]).1@ != schema_path@,
            decreases count - index,
        {
            let entry = self.schema_by_canonical.entry(index);
            if compare_text(entry.1.as_str(), schema_path) == 0 {
                proof { lemma_entry_value(self.schema_entries(), index as int); }
                return Some(entry.0.clone());
            }
            index = index + 1;
        }
        None
    }
}

} // verus!
