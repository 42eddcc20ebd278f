//! Metadata that the fuzzer state carries besides its corpora.
use vstd::prelude::*;

use crate::cmp::{cmp_views, CmpValuesMetadata, CmpValuesView};

verus! {

/// The state's metadata: one slot per kind of metadata.
#[derive(Debug)]
pub struct MetadataMap {
    cmp_values: Option<CmpValuesMetadata>,
}

impl MetadataMap {
    /// The comparison values held, if any.
    pub closed spec fn cmp_values_view(&self) -> Option<Seq<CmpValuesView>> {
        match self.cmp_values {
            Some(m) => Some(cmp_views(m.list@)),
            None => None,
        }
    }

    /// No metadata at all.
    pub fn new() -> (r: Self)
        ensures
            r.cmp_values_view() is None,
    {
        MetadataMap { cmp_values: None }
    }

    /// The comparison values held, if any.
    pub fn cmp_values(&self) -> (r: Option<&CmpValuesMetadata>)
        ensures
            match r {
                Some(m) => self.cmp_values_view() == Some(cmp_views(m.list@)),
                None => self.cmp_values_view() is None,
            },
    {
        match &self.cmp_values {
            Some(m) => Some(m),
            None => None,
        }
    }

    /// Replaces the comparison values.
    pub fn set_cmp_values(&mut self, m: CmpValuesMetadata)
        ensures
            final(self).cmp_values_view() == Some(cmp_views(m.list@)),
    {
        self.cmp_values = Some(m);
    }
}

} // verus!
