//! Enrichment of model descriptors with what the models.dev catalog knows of
//! them, and the record of earlier lookups that spares asking again.
//!
//! A lookup changes a descriptor only where it finds something: on a miss, and
//! where the catalog cannot be had, the descriptor stays as it is.

use vstd::prelude::*;

use crate::clock::Timestamp;
use crate::string_map::StringMap;

pub mod batch;
pub mod enrichment;
pub mod laws;
pub mod lookup;
pub mod metadata;
pub mod naming;

pub use self::lookup::{find_entry, is_separator, name_part};
pub use self::metadata::{apply_metadata, metadata_from_entry};

verus! {

/// Where the catalog is published.
pub const MODELS_DEV_URL: &'static str = "https://models.dev/models.json";

/// The name of the file that holds the record of earlier lookups.
pub const CACHE_FILE_NAME: &'static str = "models_dev_cache.json";

/// How long fetching the catalog may take, in seconds.
pub const FETCH_TIMEOUT_SECS: u64 = 10;

/// How long a lookup without a match is remembered, in seconds: 24 hours.
pub const NEGATIVE_CACHE_TTL_SECS: i64 = 86_400;

/// The part of a model descriptor that the catalog can inform.
#[derive(Debug, PartialEq, Eq)]
pub struct CachedModelMetadata {
    pub display_name: Option<String>,
    pub context_window: Option<i64>,
}

#[verifier::ext_equal]
pub struct CachedModelMetadataView {
    pub display_name: Option<Seq<char>>,
    pub context_window: Option<i64>,
}

impl DeepView for CachedModelMetadata {
    type V = CachedModelMetadataView;

    open spec fn deep_view(&self) -> CachedModelMetadataView {
        CachedModelMetadataView {
            display_name: self.display_name.deep_view(),
            context_window: self.context_window,
        }
    }
}

impl Clone for CachedModelMetadata {
    fn clone(&self) -> (r: Self)
        ensures
            r.deep_view() == self.deep_view(),
    {
        CachedModelMetadata {
            display_name: match &self.display_name {
                Some(name) => Some(name.clone()),
                None => None,
            },
            context_window: self.context_window,
        }
    }
}

/// What the last lookup of a slug gave: metadata, or no match and when.
#[derive(Debug, PartialEq, Eq)]
pub struct CacheRecord {
    pub found: Option<CachedModelMetadata>,
    pub not_found_at: Option<Timestamp>,
}

#[verifier::ext_equal]
pub struct CacheRecordView {
    pub found: Option<CachedModelMetadataView>,
    pub not_found_at: Option<crate::clock::Instant>,
}

impl DeepView for CacheRecord {
    type V = CacheRecordView;

    open spec fn deep_view(&self) -> CacheRecordView {
        CacheRecordView {
            found: self.found.deep_view(),
            not_found_at: self.not_found_at.deep_view(),
        }
    }
}

/// The record of earlier lookups, by slug.
pub type CacheMap = StringMap<CacheRecord>;

/// What the catalog says of a model.
#[derive(Debug, PartialEq, Eq)]
pub struct ModelsDevEntry {
    pub name: Option<String>,
    pub limit: Option<ModelsDevLimit>,
}

#[derive(Debug, Clone, Copy, PartialEq, Eq)]
pub struct ModelsDevLimit {
    pub context: Option<i64>,
}

impl DeepView for ModelsDevLimit {
    type V = ModelsDevLimit;

    open spec fn deep_view(&self) -> ModelsDevLimit {
        *self
    }
}

#[verifier::ext_equal]
pub struct ModelsDevEntryView {
    pub name: Option<Seq<char>>,
    pub limit: Option<ModelsDevLimit>,
}

impl ModelsDevEntryView {
    /// The context window that the entry gives.
    pub open spec fn context(self) -> Option<i64> {
        match self.limit {
            Some(limit) => limit.context,
            None => None,
        }
    }
}

impl DeepView for ModelsDevEntry {
    type V = ModelsDevEntryView;

    open spec fn deep_view(&self) -> ModelsDevEntryView {
        ModelsDevEntryView { name: self.name.deep_view(), limit: self.limit }
    }
}

/// The catalog, by slug.
pub type CatalogMap = StringMap<ModelsDevEntry>;

/// The entry with a name, and with a limit where a context window is given.
pub fn entry(name: &str, context: Option<i64>) -> (r: ModelsDevEntry)
    ensures
        r.deep_view() == (ModelsDevEntryView {
            name: Some(name@),
            limit: match context {
                Some(c) => Some(ModelsDevLimit { context: Some(c) }),
                None => None,
            },
        }),
{
    ModelsDevEntry {
        name: Some(name.to_string()),
        limit: match context {
            Some(c) => Some(ModelsDevLimit { context: Some(c) }),
            None => None,
        },
    }
}

/// The context window that an entry gives, if there is an entry.
pub fn context_of(entry: Option<&ModelsDevEntry>) -> (r: Option<i64>)
    ensures
        r == (match entry {
            Some(e) => e.deep_view().context(),
            None => None,
        }),
{
    match entry {
        Some(e) => match &e.limit {
            Some(limit) => limit.context,
            None => None,
        },
        None => None,
    }
}

} // verus!
