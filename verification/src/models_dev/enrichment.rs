//! The two passes of an enrichment: first over the record of earlier lookups,
//! then, for what that left open, over the catalog.

use vstd::prelude::*;

use super::lookup;
use super::lookup::find_entry;
use super::metadata;
use super::metadata::{apply_metadata, metadata_from_entry};
use super::{
    CacheMap, CacheRecord, CacheRecordView, CachedModelMetadata, CachedModelMetadataView, CatalogMap,
    ModelsDevEntryView, NEGATIVE_CACHE_TTL_SECS,
};
use crate::clock;
use crate::clock::{Clock, Instant, Timestamp};
use crate::models::{ModelInfo, ModelInfoView};

verus! {

/// The record of earlier lookups.
pub type CacheView = Map<Seq<char>, CacheRecordView>;

/// A catalog: its entries, in order.
pub type CatalogView = Seq<(Seq<char>, ModelsDevEntryView)>;

/// What the record of earlier lookups says of a slug.
#[derive(Debug, Clone, Copy, PartialEq, Eq, Structural)]
pub enum Verdict {
    /// It was found.
    Found,
    /// It was not found, and it is too early to ask again.
    Missing,
    /// It is to be looked up.
    Unknown,
}

/// Whether a lookup without a match still counts: it is less than 24 hours old.
pub open spec fn fresh_at(checked_at: Instant, now: Instant) -> bool {
    now.nanos_since(checked_at) < NEGATIVE_CACHE_TTL_SECS * 1_000_000_000
}

/// The metadata that is recorded for a slug.
pub open spec fn recorded(cache: CacheView, slug: Seq<char>) -> Option<CachedModelMetadataView> {
    if cache.contains_key(slug) {
        cache[slug].found
    } else {
        None
    }
}

/// When a slug was last looked up without a match.
pub open spec fn missed_at(cache: CacheView, slug: Seq<char>) -> Option<Instant> {
    if cache.contains_key(slug) {
        cache[slug].not_found_at
    } else {
        None
    }
}

/// What the record of earlier lookups says of a slug.
pub open spec fn verdict(cache: CacheView, slug: Seq<char>, now: Instant) -> Verdict {
    if recorded(cache, slug) is Some {
        Verdict::Found
    } else if missed_at(cache, slug) matches Some(at) && fresh_at(at, now) {
        Verdict::Missing
    } else {
        Verdict::Unknown
    }
}

/// A descriptor with what is recorded for its slug.
pub open spec fn from_cache(model: ModelInfoView, cache: CacheView) -> ModelInfoView {
    match recorded(cache, model.slug) {
        Some(found) => metadata::applied(model, found),
        None => model,
    }
}

/// A descriptor with what the catalog has for its slug.
pub open spec fn from_catalog(model: ModelInfoView, catalog: CatalogView) -> ModelInfoView {
    match lookup::lookup(catalog, model.slug) {
        Some(entry) => metadata::applied(model, metadata::metadata_of(entry)),
        None => model,
    }
}

/// The record of a lookup at a given time.
pub open spec fn record_of(
    catalog: CatalogView,
    slug: Seq<char>,
    now: Instant,
) -> CacheRecordView {
    match lookup::lookup(catalog, slug) {
        Some(entry) => CacheRecordView {
            found: Some(metadata::metadata_of(entry)),
            not_found_at: None,
        },
        None => CacheRecordView { found: None, not_found_at: Some(now) },
    }
}

/// Whether a lookup without a match still counts.
pub fn is_fresh(checked_at: &Timestamp, now: &Timestamp) -> (r: bool)
    ensures
        r == fresh_at(checked_at@, now@),
{
    proof {
        clock::law_shorter_than(now@, checked_at@, NEGATIVE_CACHE_TTL_SECS as nat);
    }
    now.seconds_since(checked_at) < NEGATIVE_CACHE_TTL_SECS
}

/// The record of a lookup that found an entry.
pub fn found_record(found: CachedModelMetadata) -> (r: CacheRecord)
    ensures
        r.deep_view() == (CacheRecordView { found: Some(found.deep_view()), not_found_at: None }),
{
    CacheRecord { found: Some(found), not_found_at: None }
}

/// The record of a lookup that found nothing.
pub fn missing_record(now: Timestamp) -> (r: CacheRecord)
    ensures
        r.deep_view() == (CacheRecordView { found: None, not_found_at: Some(now@) }),
{
    CacheRecord { found: None, not_found_at: Some(now) }
}

/// Completes a descriptor from the record of earlier lookups, and says whether it
/// is to be looked up. The clock is read where an earlier lookup found nothing.
pub(crate) fn consult(model: &mut ModelInfo, cache: &CacheMap, clock: &mut Clock) -> (r: Verdict)
    ensures
        final(model).deep_view() == from_cache(old(model).deep_view(), cache.deep_view()),
        final(clock).follows(*old(clock)),
        forall|now: Instant| #[trigger]
            final(clock).shows(now) ==> r == verdict(cache.deep_view(), old(model).slug@, now),
{
    match cache.get(model.slug.as_str()) {
        Some(record) => {
            assert(cache.deep_view()[model.slug@] == record.deep_view());
            if let Some(found) = &record.found {
                apply_metadata(model, found);
                return Verdict::Found;
            }
            if let Some(checked_at) = &record.not_found_at {
                let now = clock.read();
                if is_fresh(checked_at, &now) {
                    return Verdict::Missing;
                }
            }
            Verdict::Unknown
        },
        None => Verdict::Unknown,
    }
}

/// Completes a descriptor from the record of earlier lookups, and says whether it
/// is to be looked up at the given time.
pub fn consult_cache_at(model: &mut ModelInfo, cache: &CacheMap, now: &Timestamp) -> (r: Verdict)
    ensures
        final(model).deep_view() == from_cache(old(model).deep_view(), cache.deep_view()),
        r == verdict(cache.deep_view(), old(model).slug@, now@),
{
    let mut clock = Clock::at(*now);
    let r = consult(model, cache, &mut clock);
    assert(clock.shows(now@));
    r
}

/// Completes a descriptor from the record of earlier lookups, and says whether it
/// is to be looked up now. The system clock is read where an earlier lookup found
/// nothing.
pub fn consult_cache(model: &mut ModelInfo, cache: &CacheMap) -> (r: Verdict)
    ensures
        final(model).deep_view() == from_cache(old(model).deep_view(), cache.deep_view()),
        exists|now: Instant|
            now.exists_in_calendar() && now.secs >= 0 && r == #[trigger] verdict(
                cache.deep_view(),
                old(model).slug@,
                now,
            ),
{
    let ghost slug = model.slug@;
    let mut clock = Clock::system();
    let r = consult(model, cache, &mut clock);
    proof {
        let now = clock::lemma_system_shows(clock);
        assert(r == verdict(cache.deep_view(), slug, now));
    }
    r
}

/// Completes a descriptor from the catalog and records the outcome. The clock is
/// read where nothing is found.
pub(crate) fn look_up(
    model: &mut ModelInfo,
    cache: &mut CacheMap,
    catalog: &CatalogMap,
    clock: &mut Clock,
)
    ensures
        final(model).deep_view() == from_catalog(old(model).deep_view(), catalog.entry_views()),
        final(clock).follows(*old(clock)),
        forall|now: Instant| #[trigger]
            final(clock).shows(now) ==> final(cache).deep_view() == old(cache).deep_view().insert(
                old(model).slug@,
                record_of(catalog.entry_views(), old(model).slug@, now),
            ),
{
    let ghost before = cache.deep_view();
    let ghost slug = model.slug@;
    let record = match find_entry(model.slug.as_str(), catalog) {
        Some(entry) => {
            let found = metadata_from_entry(entry);
            apply_metadata(model, &found);
            found_record(found)
        },
        None => missing_record(clock.read()),
    };
    cache.insert(model.slug.clone(), record);
    assert forall|now: Instant| #[trigger] clock.shows(now) implies cache.deep_view()
        == before.insert(slug, record_of(catalog.entry_views(), slug, now)) by {
        assert(record.deep_view() == record_of(catalog.entry_views(), slug, now));
        assert(cache.deep_view() =~= before.insert(
            slug,
            record_of(catalog.entry_views(), slug, now),
        ));
    }
}

/// Completes a descriptor from the catalog and records the outcome, with the given
/// time where nothing is found. Without a catalog nothing changes. The result says
/// whether the record changed.
pub fn resolve_at(
    model: &mut ModelInfo,
    cache: &mut CacheMap,
    catalog: Option<&CatalogMap>,
    now: Timestamp,
) -> (r: bool)
    ensures
        r == catalog is Some,
        match catalog {
            Some(c) => {
                &&& final(model).deep_view() == from_catalog(
                    old(model).deep_view(),
                    c.entry_views(),
                )
                &&& final(cache).deep_view() == old(cache).deep_view().insert(
                    old(model).slug@,
                    record_of(c.entry_views(), old(model).slug@, now@),
                )
            },
            None => *final(model) == *old(model) && *final(cache) == *old(cache),
        },
{
    match catalog {
        Some(catalog) => {
            let mut clock = Clock::at(now);
            look_up(model, cache, catalog, &mut clock);
            assert(clock.shows(now@));
            true
        },
        None => false,
    }
}

/// Completes a descriptor from the catalog and records the outcome, with the time
/// of the system clock where nothing is found. Without a catalog nothing changes.
/// The result says whether the record changed.
pub fn resolve(model: &mut ModelInfo, cache: &mut CacheMap, catalog: Option<&CatalogMap>) -> (r:
    bool)
    ensures
        r == catalog is Some,
        match catalog {
            Some(c) => {
                &&& final(model).deep_view() == from_catalog(
                    old(model).deep_view(),
                    c.entry_views(),
                )
                &&& exists|now: Instant|
                    now.exists_in_calendar() && now.secs >= 0 && final(cache).deep_view()
                        == old(cache).deep_view().insert(
                        old(model).slug@,
                        #[trigger] record_of(c.entry_views(), old(model).slug@, now),
                    )
            },
            None => *final(model) == *old(model) && *final(cache) == *old(cache),
        },
{
    match catalog {
        Some(catalog) => {
            let ghost slug = model.slug@;
            let mut clock = Clock::system();
            look_up(model, cache, catalog, &mut clock);
            proof {
                let now = clock::lemma_system_shows(clock);
                let record = record_of(catalog.entry_views(), slug, now);
                assert(cache.deep_view() == old(cache).deep_view().insert(slug, record));
            }
            true
        },
        None => false,
    }
}

} // verus!
