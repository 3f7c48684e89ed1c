//! What holds of enrichments as a whole.

use vstd::prelude::*;

use super::batch;
use super::enrichment;
use super::enrichment::{CacheView, CatalogView, Verdict};
use super::lookup;
use super::metadata;
use super::CacheRecordView;
use crate::clock::Instant;
use crate::models::ModelInfoView;

verus! {

/// No enrichment changes a slug.
pub proof fn law_slug_kept(model: ModelInfoView, cache: CacheView, catalog: CatalogView)
    ensures
        enrichment::from_cache(model, cache).slug == model.slug,
        enrichment::from_catalog(model, catalog).slug == model.slug,
{
}

/// A model that the catalog has is no longer described by defaults; any other
/// keeps its description.
pub proof fn law_enriched_or_unchanged(model: ModelInfoView, catalog: CatalogView)
    ensures
        lookup::lookup(catalog, model.slug) is Some ==> !enrichment::from_catalog(
            model,
            catalog,
        ).used_fallback_model_metadata,
        lookup::lookup(catalog, model.slug) is None ==> enrichment::from_catalog(model, catalog)
            == model,
{
}

/// A slug that was found is never looked up again, and from then on the record
/// gives what the catalog gave.
pub proof fn law_found_is_remembered(
    model: ModelInfoView,
    cache: CacheView,
    catalog: CatalogView,
    now: Instant,
    later: Instant,
)
    requires
        lookup::lookup(catalog, model.slug) is Some,
    ensures
        ({
            let after = cache.insert(
                model.slug,
                enrichment::record_of(catalog, model.slug, now),
            );
            &&& enrichment::verdict(after, model.slug, later) == Verdict::Found
            &&& enrichment::from_cache(model, after) == enrichment::from_catalog(model, catalog)
        }),
{
}

/// A slug that was not found is looked up again once 24 hours have passed, and
/// not before. The record of it changes no descriptor.
pub proof fn law_miss_is_remembered_for_a_day(
    model: ModelInfoView,
    cache: CacheView,
    catalog: CatalogView,
    now: Instant,
    later: Instant,
)
    requires
        lookup::lookup(catalog, model.slug) is None,
    ensures
        ({
            let after = cache.insert(
                model.slug,
                enrichment::record_of(catalog, model.slug, now),
            );
            &&& enrichment::verdict(after, model.slug, later) == (if later.nanos_since(now) < 24
                * 60 * 60 * 1_000_000_000 {
                Verdict::Missing
            } else {
                Verdict::Unknown
            })
            &&& enrichment::from_cache(model, after) == model
        }),
{
}

/// A lookup leaves what is recorded of other slugs as it is.
pub proof fn law_other_slugs_untouched(
    cache: CacheView,
    catalog: CatalogView,
    slug: Seq<char>,
    other: Seq<char>,
    now: Instant,
    later: Instant,
)
    requires
        slug != other,
    ensures
        ({
            let after = cache.insert(slug, enrichment::record_of(catalog, slug, now));
            &&& enrichment::verdict(after, other, later) == enrichment::verdict(cache, other, later)
            &&& enrichment::recorded(after, other) == enrichment::recorded(cache, other)
            &&& enrichment::missed_at(after, other) == enrichment::missed_at(cache, other)
        }),
{
}

/// The descriptors of a listing after both passes over it.
pub open spec fn refreshed(
    models: Seq<ModelInfoView>,
    cache: CacheView,
    catalog: CatalogView,
    judged: Instant,
) -> Seq<ModelInfoView> {
    batch::all_from_catalog(
        batch::all_from_cache(models, cache),
        batch::open_positions(models, cache, judged),
        catalog,
    )
}

/// The record after both passes over a listing.
pub open spec fn refreshed_cache(
    models: Seq<ModelInfoView>,
    cache: CacheView,
    catalog: CatalogView,
    judged: Instant,
    now: Instant,
) -> CacheView {
    batch::all_recorded(
        batch::all_from_cache(models, cache),
        cache,
        batch::open_positions(models, cache, judged),
        catalog,
        now,
    )
}

/// Every descriptor of a listing is completed by itself: one with a context window
/// stays as it is, one that is recorded gets what is recorded, one that is open
/// gets what the catalog has, and one that is known to be missing stays as it is.
/// The slugs stay, in their order.
pub proof fn law_refresh_itemwise(
    models: Seq<ModelInfoView>,
    cache: CacheView,
    catalog: CatalogView,
    judged: Instant,
    i: int,
)
    requires
        0 <= i < models.len(),
    ensures
        refreshed(models, cache, catalog, judged).len() == models.len(),
        refreshed(models, cache, catalog, judged)[i].slug == models[i].slug,
        refreshed(models, cache, catalog, judged)[i] == (if models[i].context_window is Some {
            models[i]
        } else {
            match enrichment::verdict(cache, models[i].slug, judged) {
                Verdict::Found => enrichment::from_cache(models[i], cache),
                Verdict::Missing => models[i],
                Verdict::Unknown => enrichment::from_catalog(models[i], catalog),
            }
        }),
{
    let positions = batch::open_positions(models, cache, judged);
    let first = batch::all_from_cache(models, cache);
    batch::law_open_positions(models, cache, judged);
    assert forall|k: int| 0 <= k < positions.len() implies 0 <= #[trigger] positions[k]
        < first.len() by {
        assert(positions.contains(positions[k]));
        assert(batch::is_open(models[positions[k]], cache, judged));
    }
    batch::lemma_all_from_catalog(first, positions, catalog);
    assert(positions.contains(i) <==> batch::is_open(models[i], cache, judged));
    if positions.contains(i) {
        lemma_looked_up_once(first, positions, catalog, i);
    }
}

/// At positions that do not repeat, a descriptor is looked up once.
proof fn lemma_looked_up_once(
    models: Seq<ModelInfoView>,
    positions: Seq<int>,
    catalog: CatalogView,
    i: int,
)
    requires
        forall|k: int| 0 <= k < positions.len() ==> 0 <= #[trigger] positions[k] < models.len(),
        forall|j: int, k: int|
            0 <= j < k < positions.len() ==> #[trigger] positions[j] < #[trigger] positions[k],
        positions.contains(i),
    ensures
        batch::all_from_catalog(models, positions, catalog)[i] == enrichment::from_catalog(
            models[i],
            catalog,
        ),
    decreases positions.len(),
{
    let front = positions.drop_last();
    let last = positions.len() - 1;
    assert forall|k: int| 0 <= k < front.len() implies front[k] == #[trigger] positions[k] by {}
    batch::lemma_all_from_catalog(models, front, catalog);
    let at = choose|k: int| 0 <= k < positions.len() && positions[k] == i;
    if at == last {
        if front.contains(i) {
            let k = choose|k: int| 0 <= k < front.len() && front[k] == i;
            assert(positions[k] < positions[last]);
        }
    } else {
        assert(front[at] == i);
        lemma_looked_up_once(models, front, catalog, i);
        assert(positions[at] < positions[last]);
    }
}

/// What is recorded of a slug after lookups is the outcome of its own; of a slug
/// that was not looked up, what was recorded before.
proof fn lemma_all_recorded(
    models: Seq<ModelInfoView>,
    cache: CacheView,
    positions: Seq<int>,
    catalog: CatalogView,
    now: Instant,
    slug: Seq<char>,
)
    ensures
        ({
            let after = batch::all_recorded(models, cache, positions, catalog, now);
            if exists|k: int| 0 <= k < positions.len() && models[#[trigger] positions[k]].slug == slug {
                after.contains_key(slug) && after[slug] == enrichment::record_of(catalog, slug, now)
            } else {
                after.contains_key(slug) == cache.contains_key(slug) && after[slug] == cache[slug]
            }
        }),
    decreases positions.len(),
{
    if positions.len() > 0 {
        let front = positions.drop_last();
        let last = positions.len() - 1;
        lemma_all_recorded(models, cache, front, catalog, now, slug);
        assert forall|k: int| 0 <= k < front.len() implies front[k] == #[trigger] positions[k] by {}
        if models[positions[last]].slug != slug {
            if exists|k: int| 0 <= k < positions.len() && models[#[trigger] positions[k]].slug
                == slug {
                let k = choose|k: int|
                    0 <= k < positions.len() && models[#[trigger] positions[k]].slug == slug;
                assert(models[front[k]].slug == slug);
            }
        }
    }
}

/// A refresh asks the catalog for nothing that an earlier one has found, or has
/// missed within the last 24 hours: a descriptor of the same listing is open again
/// only if the catalog lacked its slug, and at least 24 hours after that.
pub proof fn law_refresh_not_repeated(
    models: Seq<ModelInfoView>,
    cache: CacheView,
    catalog: CatalogView,
    judged: Instant,
    now: Instant,
    i: int,
    later: Instant,
)
    requires
        0 <= i < models.len(),
        batch::is_open(
            models[i],
            refreshed_cache(models, cache, catalog, judged, now),
            later,
        ),
    ensures
        lookup::lookup(catalog, models[i].slug) is None || !batch::is_open(
            models[i],
            cache,
            judged,
        ),
        enrichment::recorded(cache, models[i].slug) is None,
        enrichment::missed_at(
            refreshed_cache(models, cache, catalog, judged, now),
            models[i].slug,
        ) matches Some(at) && later.nanos_since(at) >= 24 * 60 * 60 * 1_000_000_000,
{
    let positions = batch::open_positions(models, cache, judged);
    let first = batch::all_from_cache(models, cache);
    let slug = models[i].slug;
    batch::law_open_positions(models, cache, judged);
    lemma_all_recorded(first, cache, positions, catalog, now, slug);
    if exists|k: int| 0 <= k < positions.len() && first[#[trigger] positions[k]].slug == slug {
        let k = choose|k: int|
            0 <= k < positions.len() && first[#[trigger] positions[k]].slug == slug;
        let p = positions[k];
        assert(positions.contains(p));
        assert(batch::is_open(models[p], cache, judged));
        assert(first[p].slug == models[p].slug);
    } else {
        if batch::is_open(models[i], cache, judged) {
            assert(positions.contains(i));
            let k = choose|k: int| 0 <= k < positions.len() && positions[k] == i;
            assert(first[positions[k]].slug == slug);
        }
    }
}

/// What the record says of a slug: one with metadata was found, whatever else the
/// record holds; one without was missed, and counts as missing for less than 24 hours
/// after that; without either, and without a record, it is to be looked up.
pub proof fn law_verdict_by_record(
    cache: CacheView,
    slug: Seq<char>,
    record: CacheRecordView,
    now: Instant,
)
    ensures
        !cache.contains_key(slug) ==> enrichment::verdict(cache, slug, now) == Verdict::Unknown,
        cache.contains_key(slug) && cache[slug] == record ==> {
            &&& record.found is Some ==> enrichment::verdict(cache, slug, now) == Verdict::Found
            &&& record.found is None && record.not_found_at is None ==> enrichment::verdict(
                cache,
                slug,
                now,
            ) == Verdict::Unknown
            &&& record.found is None && record.not_found_at is Some && now.nanos_since(
                record.not_found_at->0,
            ) < 86_400_000_000_000 ==> enrichment::verdict(cache, slug, now) == Verdict::Missing
            &&& record.found is None && record.not_found_at is Some && now.nanos_since(
                record.not_found_at->0,
            ) >= 86_400_000_000_000 ==> enrichment::verdict(cache, slug, now) == Verdict::Unknown
        },
{
}

/// The record completes a descriptor with what it holds for that slug, and only
/// then.
pub proof fn law_completed_from_record(
    model: ModelInfoView,
    cache: CacheView,
    record: CacheRecordView,
)
    ensures
        !cache.contains_key(model.slug) ==> enrichment::from_cache(model, cache) == model,
        cache.contains_key(model.slug) && cache[model.slug] == record ==> {
            &&& record.found is None ==> enrichment::from_cache(model, cache) == model
            &&& record.found is Some ==> enrichment::from_cache(model, cache) == metadata::applied(
                model,
                record.found->0,
            )
        },
{
}

/// The catalog completes a descriptor with the metadata of the entry for its slug,
/// and that is what is recorded; without an entry nothing changes, and the time is
/// recorded.
pub proof fn law_completed_from_catalog(
    model: ModelInfoView,
    catalog: CatalogView,
    now: Instant,
)
    ensures
        match lookup::lookup(catalog, model.slug) {
            Some(entry) => {
                &&& enrichment::from_catalog(model, catalog) == metadata::applied(
                    model,
                    metadata::metadata_of(entry),
                )
                &&& enrichment::record_of(catalog, model.slug, now) == (CacheRecordView {
                    found: Some(metadata::metadata_of(entry)),
                    not_found_at: None,
                })
            },
            None => {
                &&& enrichment::from_catalog(model, catalog) == model
                &&& enrichment::record_of(catalog, model.slug, now) == (CacheRecordView {
                    found: None,
                    not_found_at: Some(now),
                })
            },
        },
{
}

/// A window that the catalog gives for a slug becomes the window and the ceiling of
/// the descriptor, and the compaction threshold is left to be derived from it.
pub proof fn law_window_from_catalog(model: ModelInfoView, catalog: CatalogView)
    requires
        lookup::lookup(catalog, model.slug) is Some,
        lookup::lookup(catalog, model.slug)->0.limit is Some,
        lookup::lookup(catalog, model.slug)->0.limit->0.context is Some,
        lookup::lookup(catalog, model.slug)->0.limit->0.context->0 > 0,
    ensures
        ({
            let window = lookup::lookup(catalog, model.slug)->0.limit->0.context;
            let after = enrichment::from_catalog(model, catalog);
            &&& after.context_window == window
            &&& after.max_context_window == window
            &&& after.auto_compact_token_limit is None
            &&& !after.used_fallback_model_metadata
            &&& after.slug == model.slug
        }),
{
}

/// A descriptor is looked up exactly where it lacks a context window and the record
/// neither has its slug nor knows it to be missing.
pub proof fn law_open_descriptors(model: ModelInfoView, cache: CacheView, now: Instant)
    ensures
        batch::is_minimal(model) <==> model.context_window is None,
        batch::is_open(model, cache, now) <==> model.context_window is None
            && enrichment::verdict(cache, model.slug, now) == Verdict::Unknown,
{
}

/// The first pass over a listing completes each descriptor that lacks a context
/// window from the record, and leaves the others.
pub proof fn law_first_pass_itemwise(models: Seq<ModelInfoView>, cache: CacheView, i: int)
    requires
        0 <= i < models.len(),
    ensures
        batch::all_from_cache(models, cache).len() == models.len(),
        models[i].context_window is None ==> batch::all_from_cache(models, cache)[i]
            == enrichment::from_cache(models[i], cache),
        models[i].context_window is Some ==> batch::all_from_cache(models, cache)[i] == models[i],
{
}

/// After both passes the record holds the outcome of the lookup of every descriptor
/// that was open, and of every other slug what it held before.
pub proof fn law_refresh_recorded(
    models: Seq<ModelInfoView>,
    cache: CacheView,
    catalog: CatalogView,
    judged: Instant,
    now: Instant,
    slug: Seq<char>,
)
    ensures
        ({
            let after = refreshed_cache(models, cache, catalog, judged, now);
            &&& (exists|i: int|
                0 <= i < models.len() && (#[trigger] models[i]).slug == slug && batch::is_open(
                    models[i],
                    cache,
                    judged,
                )) ==> after.contains_key(slug) && after[slug] == enrichment::record_of(
                catalog,
                slug,
                now,
            )
            &&& !(exists|i: int|
                0 <= i < models.len() && (#[trigger] models[i]).slug == slug && batch::is_open(
                    models[i],
                    cache,
                    judged,
                )) ==> after.contains_key(slug) == cache.contains_key(slug) && after[slug]
                == cache[slug]
        }),
{
    let positions = batch::open_positions(models, cache, judged);
    let first = batch::all_from_cache(models, cache);
    batch::law_open_positions(models, cache, judged);
    lemma_all_recorded(first, cache, positions, catalog, now, slug);
    if exists|i: int|
        0 <= i < models.len() && (#[trigger] models[i]).slug == slug && batch::is_open(
            models[i],
            cache,
            judged,
        ) {
        let i = choose|i: int|
            0 <= i < models.len() && (#[trigger] models[i]).slug == slug && batch::is_open(
                models[i],
                cache,
                judged,
            );
        assert(positions.contains(i));
        let k = choose|k: int| 0 <= k < positions.len() && positions[k] == i;
        assert(first[positions[k]].slug == slug);
    } else if exists|k: int| 0 <= k < positions.len() && first[#[trigger] positions[k]].slug
        == slug {
        let k = choose|k: int|
            0 <= k < positions.len() && first[#[trigger] positions[k]].slug == slug;
        let p = positions[k];
        assert(positions.contains(p));
        assert(batch::is_open(models[p], cache, judged));
        assert(models[p].slug == slug);
    }
}

/// Where the catalog is fetched from, how long that may take, and where the record
/// is kept.
pub proof fn law_fetched_and_kept()
    ensures
        super::MODELS_DEV_URL@ == "https://models.dev/models.json"@,
        super::CACHE_FILE_NAME@ == "models_dev_cache.json"@,
        super::FETCH_TIMEOUT_SECS == 10,
        super::NEGATIVE_CACHE_TTL_SECS == 24 * 60 * 60,
{
}

} // verus!
