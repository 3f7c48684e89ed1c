//! Enrichment of a whole provider listing, with one fetch of the catalog.

use vstd::prelude::*;

use super::enrichment;
use super::enrichment::{consult, look_up, CacheView, CatalogView, Verdict};
use super::{CacheMap, CatalogMap};
use crate::clock;
use crate::clock::{Clock, Instant, Timestamp};
use crate::models::{ModelInfo, ModelInfoView};

verus! {

/// Whether a descriptor lacks a context window.
pub open spec fn is_minimal(model: ModelInfoView) -> bool {
    model.context_window is None
}

/// Whether some descriptor lacks a context window.
pub fn needs_enrichment(models: &[ModelInfo]) -> (r: bool)
    ensures
        r == exists|i: int|
            0 <= i < models.deep_view().len() && is_minimal(#[trigger] models.deep_view()[i]),
{
    let mut i: usize = 0;
    while i < models.len()
        invariant
            i <= models.len(),
            forall|j: int| 0 <= j < i ==> !is_minimal(#[trigger] models.deep_view()[j]),
        decreases models.len() - i,
    {
        if models[i].context_window.is_none() {
            assert(is_minimal(models.deep_view()[i as int]));
            return true;
        }
        i = i + 1;
    }
    false
}

/// The descriptors with what is recorded for those that lack a context window.
pub open spec fn all_from_cache(
    models: Seq<ModelInfoView>,
    cache: CacheView,
) -> Seq<ModelInfoView> {
    models.map_values(
        |model: ModelInfoView|
            if is_minimal(model) {
                enrichment::from_cache(model, cache)
            } else {
                model
            },
    )
}

/// Whether a descriptor is to be looked up.
pub open spec fn is_open(model: ModelInfoView, cache: CacheView, now: Instant) -> bool {
    is_minimal(model) && enrichment::verdict(cache, model.slug, now) == Verdict::Unknown
}

/// The positions of the descriptors that are to be looked up.
pub open spec fn open_positions(
    models: Seq<ModelInfoView>,
    cache: CacheView,
    now: Instant,
) -> Seq<int>
    decreases models.len(),
{
    if models.len() == 0 {
        Seq::empty()
    } else {
        let before = open_positions(models.drop_last(), cache, now);
        if is_open(models.last(), cache, now) {
            before.push(models.len() - 1)
        } else {
            before
        }
    }
}

/// The open positions are those of the descriptors that are to be looked up, each
/// once and in order.
pub proof fn law_open_positions(
    models: Seq<ModelInfoView>,
    cache: CacheView,
    now: Instant,
)
    ensures
        forall|i: int|
            open_positions(models, cache, now).contains(i) <==> 0 <= i < models.len()
                && #[trigger] is_open(models[i], cache, now),
        forall|j: int, k: int|
            0 <= j < k < open_positions(models, cache, now).len() ==> #[trigger] open_positions(
                models,
                cache,
                now,
            )[j] < #[trigger] open_positions(models, cache, now)[k],
    decreases models.len(),
{
    let all = open_positions(models, cache, now);
    if models.len() > 0 {
        let front = models.drop_last();
        let last = models.len() - 1;
        let before = open_positions(front, cache, now);
        law_open_positions(front, cache, now);
        assert forall|k: int| 0 <= k < before.len() implies 0 <= #[trigger] before[k] < last by {
            assert(before.contains(before[k]));
            assert(is_open(front[before[k]], cache, now));
        }
        assert forall|i: int|
            all.contains(i) <==> 0 <= i < models.len() && #[trigger] is_open(
                models[i],
                cache,
                now,
            ) by {
            if all.contains(i) {
                let k = choose|k: int| 0 <= k < all.len() && all[k] == i;
                if k < before.len() {
                    assert(before[k] == i);
                    assert(before.contains(i));
                    assert(is_open(front[i], cache, now));
                }
            }
            if 0 <= i < models.len() && is_open(models[i], cache, now) {
                if i < last {
                    assert(is_open(front[i], cache, now));
                    let k = choose|k: int| 0 <= k < before.len() && before[k] == i;
                    assert(all[k] == i);
                } else {
                    assert(all[before.len() as int] == i);
                }
            }
        }
    }
}

/// Completes the descriptors that lack a context window from the record of
/// earlier lookups. Returns the positions of those that are to be looked up. The
/// clock is read where an earlier lookup found nothing.
fn consult_many(models: &mut [ModelInfo], cache: &CacheMap, clock: &mut Clock) -> (r: Vec<usize>)
    ensures
        final(models).deep_view() == all_from_cache(old(models).deep_view(), cache.deep_view()),
        final(clock).follows(*old(clock)),
        forall|now: Instant| #[trigger]
            final(clock).shows(now) ==> r@.map_values(|i: usize| i as int) == open_positions(
                old(models).deep_view(),
                cache.deep_view(),
                now,
            ),
        final(models)@.len() == old(models)@.len(),
        forall|k: int| 0 <= k < r@.len() ==> #[trigger] r@[k] < old(models)@.len(),
{
    let ghost all = models.deep_view();
    let ghost records = cache.deep_view();
    let mut unresolved: Vec<usize> = Vec::new();
    let mut i: usize = 0;
    while i < models.len()
        invariant
            i <= models.len(),
            models.len() == all.len(),
            records == cache.deep_view(),
            all == old(models).deep_view(),
            clock.follows(*old(clock)),
            forall|j: int|
                0 <= j < i ==> (#[trigger] models@[j]).deep_view() == all_from_cache(
                    all,
                    records,
                )[j],
            forall|j: int| i <= j < models.len() ==> (#[trigger] models@[j]).deep_view() == all[j],
            forall|now: Instant| #[trigger]
                clock.shows(now) ==> unresolved@.map_values(|i: usize| i as int) == open_positions(
                    all.take(i as int),
                    records,
                    now,
                ),
            forall|k: int| 0 <= k < unresolved@.len() ==> #[trigger] unresolved@[k] < i,
        decreases models.len() - i,
    {
        let ghost positions = unresolved@.map_values(|i: usize| i as int);
        let ghost earlier = *clock;
        assert(models@[i as int].deep_view() == all[i as int]);
        assert(all.take(i + 1).drop_last() =~= all.take(i as int));
        if models[i].context_window.is_none() {
            let said = consult(&mut models[i], cache, clock);
            if said == Verdict::Unknown {
                unresolved.push(i);
                assert(unresolved@.map_values(|i: usize| i as int) =~= positions.push(i as int));
            }
        }
        assert forall|now: Instant| #[trigger] clock.shows(now) implies unresolved@.map_values(
            |i: usize| i as int,
        ) == open_positions(all.take(i + 1), records, now) by {
            assert(earlier.shows(now));
        }
        i = i + 1;
    }
    assert(all.take(i as int) =~= all);
    assert(models.deep_view() =~= all_from_cache(all, records));
    unresolved
}

/// Completes the descriptors that lack a context window from the record of
/// earlier lookups. Returns the positions of those that are to be looked up at the
/// given time.
pub fn consult_cache_many_at(
    models: &mut [ModelInfo],
    cache: &CacheMap,
    now: &Timestamp,
) -> (r: Vec<usize>)
    ensures
        final(models).deep_view() == all_from_cache(old(models).deep_view(), cache.deep_view()),
        r@.map_values(|i: usize| i as int) == open_positions(
            old(models).deep_view(),
            cache.deep_view(),
            now@,
        ),
        final(models)@.len() == old(models)@.len(),
        forall|k: int| 0 <= k < r@.len() ==> #[trigger] r@[k] < old(models)@.len(),
{
    let mut clock = Clock::at(*now);
    let r = consult_many(models, cache, &mut clock);
    assert(clock.shows(now@));
    r
}

/// Completes the descriptors that lack a context window from the record of
/// earlier lookups. Returns the positions of those that are to be looked up now. The
/// system clock is read where an earlier lookup found nothing.
pub fn consult_cache_many(models: &mut [ModelInfo], cache: &CacheMap) -> (r: Vec<usize>)
    ensures
        final(models).deep_view() == all_from_cache(old(models).deep_view(), cache.deep_view()),
        exists|now: Instant|
            now.exists_in_calendar() && now.secs >= 0 && r@.map_values(|i: usize| i as int)
                == #[trigger] open_positions(old(models).deep_view(), cache.deep_view(), now),
        final(models)@.len() == old(models)@.len(),
        forall|k: int| 0 <= k < r@.len() ==> #[trigger] r@[k] < old(models)@.len(),
{
    let ghost all = models.deep_view();
    let mut clock = Clock::system();
    let r = consult_many(models, cache, &mut clock);
    proof {
        let now = clock::lemma_system_shows(clock);
        assert(r@.map_values(|i: usize| i as int) == open_positions(all, cache.deep_view(), now));
    }
    r
}

/// The descriptors after those at the given positions were looked up, in order.
pub open spec fn all_from_catalog(
    models: Seq<ModelInfoView>,
    positions: Seq<int>,
    catalog: CatalogView,
) -> Seq<ModelInfoView>
    decreases positions.len(),
{
    if positions.len() == 0 {
        models
    } else {
        let before = all_from_catalog(models, positions.drop_last(), catalog);
        let i = positions.last();
        before.update(i, enrichment::from_catalog(before[i], catalog))
    }
}

/// The record after the descriptors at the given positions were looked up, in
/// order.
pub open spec fn all_recorded(
    models: Seq<ModelInfoView>,
    cache: CacheView,
    positions: Seq<int>,
    catalog: CatalogView,
    now: Instant,
) -> CacheView
    decreases positions.len(),
{
    if positions.len() == 0 {
        cache
    } else {
        let before = all_recorded(models, cache, positions.drop_last(), catalog, now);
        let slug = models[positions.last()].slug;
        before.insert(slug, enrichment::record_of(catalog, slug, now))
    }
}

/// Lookups change no slug, and no descriptor at another position.
pub proof fn lemma_all_from_catalog(
    models: Seq<ModelInfoView>,
    positions: Seq<int>,
    catalog: CatalogView,
)
    requires
        forall|k: int| 0 <= k < positions.len() ==> 0 <= #[trigger] positions[k] < models.len(),
    ensures
        all_from_catalog(models, positions, catalog).len() == models.len(),
        forall|i: int|
            0 <= i < models.len() ==> (#[trigger] all_from_catalog(
                models,
                positions,
                catalog,
            )[i]).slug == models[i].slug,
        forall|i: int|
            0 <= i < models.len() && !positions.contains(i) ==> #[trigger] all_from_catalog(
                models,
                positions,
                catalog,
            )[i] == models[i],
    decreases positions.len(),
{
    if positions.len() > 0 {
        let front = positions.drop_last();
        lemma_all_from_catalog(models, front, catalog);
        assert(0 <= positions[positions.len() - 1] < models.len());
        assert forall|i: int|
            0 <= i < models.len() && !positions.contains(i) implies #[trigger] all_from_catalog(
            models,
            positions,
            catalog,
        )[i] == models[i] by {
            assert(positions[positions.len() - 1] != i);
            if front.contains(i) {
                let k = choose|k: int| 0 <= k < front.len() && front[k] == i;
                assert(positions[k] == i);
            }
        }
    }
}

/// Completes the descriptors at the given positions from the catalog and records
/// the outcomes. The clock is read where nothing is found.
fn look_up_many(
    models: &mut [ModelInfo],
    unresolved: &[usize],
    cache: &mut CacheMap,
    catalog: &CatalogMap,
    clock: &mut Clock,
)
    requires
        forall|k: int| 0 <= k < unresolved@.len() ==> #[trigger] unresolved@[k] < old(models)@.len(),
    ensures
        final(models).deep_view() == all_from_catalog(
            old(models).deep_view(),
            unresolved@.map_values(|i: usize| i as int),
            catalog.entry_views(),
        ),
        final(clock).follows(*old(clock)),
        forall|now: Instant| #[trigger]
            final(clock).shows(now) ==> final(cache).deep_view() == all_recorded(
                old(models).deep_view(),
                old(cache).deep_view(),
                unresolved@.map_values(|i: usize| i as int),
                catalog.entry_views(),
                now,
            ),
{
    let ghost all = models.deep_view();
    let ghost records = cache.deep_view();
    let ghost entries = catalog.entry_views();
    let ghost positions = unresolved@.map_values(|i: usize| i as int);
    let mut k: usize = 0;
    assert(models.deep_view() =~= all_from_catalog(all, positions.take(0), entries));
    while k < unresolved.len()
        invariant
            k <= unresolved.len(),
            models@.len() == all.len(),
            entries == catalog.entry_views(),
            positions == unresolved@.map_values(|i: usize| i as int),
            clock.follows(*old(clock)),
            forall|k: int| 0 <= k < unresolved@.len() ==> #[trigger] unresolved@[k] < all.len(),
            models.deep_view() == all_from_catalog(all, positions.take(k as int), entries),
            forall|now: Instant| #[trigger]
                clock.shows(now) ==> cache.deep_view() == all_recorded(
                    all,
                    records,
                    positions.take(k as int),
                    entries,
                    now,
                ),
        decreases unresolved.len() - k,
    {
        let index: usize = unresolved[k];
        let ghost before = models.deep_view();
        let ghost earlier = *clock;
        let ghost next = positions.take(k + 1);
        proof {
            lemma_all_from_catalog(all, positions.take(k as int), entries);
            assert(before[index as int].slug == all[index as int].slug);
            assert(models@[index as int].deep_view() == before[index as int]);
            assert(next.drop_last() =~= positions.take(k as int));
            assert(next.last() == index);
        }
        look_up(&mut models[index], cache, catalog, clock);
        assert(models.deep_view() =~= before.update(
            index as int,
            enrichment::from_catalog(before[index as int], entries),
        ));
        assert forall|now: Instant| #[trigger] clock.shows(now) implies cache.deep_view()
            == all_recorded(all, records, next, entries, now) by {
            assert(earlier.shows(now));
        }
        k = k + 1;
    }
    assert(positions.take(k as int) =~= positions);
}

/// Completes the descriptors at the given positions from the catalog and records
/// the outcomes, with the given time where nothing is found. Without a catalog
/// nothing changes. The result says whether the record changed.
pub fn resolve_many_at(
    models: &mut [ModelInfo],
    unresolved: &[usize],
    cache: &mut CacheMap,
    catalog: Option<&CatalogMap>,
    now: Timestamp,
) -> (r: bool)
    requires
        forall|k: int| 0 <= k < unresolved@.len() ==> #[trigger] unresolved@[k] < old(models)@.len(),
    ensures
        r == (catalog is Some && unresolved@.len() > 0),
        match catalog {
            Some(c) => {
                let positions = unresolved@.map_values(|i: usize| i as int);
                &&& final(models).deep_view() == all_from_catalog(
                    old(models).deep_view(),
                    positions,
                    c.entry_views(),
                )
                &&& final(cache).deep_view() == all_recorded(
                    old(models).deep_view(),
                    old(cache).deep_view(),
                    positions,
                    c.entry_views(),
                    now@,
                )
            },
            None => final(models)@ == old(models)@ && *final(cache) == *old(cache),
        },
{
    match catalog {
        Some(catalog) => {
            let mut clock = Clock::at(now);
            look_up_many(models, unresolved, cache, catalog, &mut clock);
            assert(clock.shows(now@));
            unresolved.len() > 0
        },
        None => false,
    }
}

/// Completes the descriptors at the given positions from the catalog and records
/// the outcomes, with the time of the system clock where nothing is found. Without
/// a catalog nothing changes. The result says whether the record changed.
pub fn resolve_many(
    models: &mut [ModelInfo],
    unresolved: &[usize],
    cache: &mut CacheMap,
    catalog: Option<&CatalogMap>,
) -> (r: bool)
    requires
        forall|k: int| 0 <= k < unresolved@.len() ==> #[trigger] unresolved@[k] < old(models)@.len(),
    ensures
        r == (catalog is Some && unresolved@.len() > 0),
        match catalog {
            Some(c) => {
                let positions = unresolved@.map_values(|i: usize| i as int);
                &&& final(models).deep_view() == all_from_catalog(
                    old(models).deep_view(),
                    positions,
                    c.entry_views(),
                )
                &&& exists|now: Instant|
                    now.exists_in_calendar() && now.secs >= 0 && final(cache).deep_view()
                        == #[trigger] all_recorded(
                        old(models).deep_view(),
                        old(cache).deep_view(),
                        positions,
                        c.entry_views(),
                        now,
                    )
            },
            None => final(models)@ == old(models)@ && *final(cache) == *old(cache),
        },
{
    match catalog {
        Some(catalog) => {
            let ghost all = models.deep_view();
            let ghost records = cache.deep_view();
            let ghost positions = unresolved@.map_values(|i: usize| i as int);
            let mut clock = Clock::system();
            look_up_many(models, unresolved, cache, catalog, &mut clock);
            proof {
                let now = clock::lemma_system_shows(clock);
                assert(cache.deep_view() == all_recorded(
                    all,
                    records,
                    positions,
                    catalog.entry_views(),
                    now,
                ));
            }
            unresolved.len() > 0
        },
        None => false,
    }
}

} // verus!
