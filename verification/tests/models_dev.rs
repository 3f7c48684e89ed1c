use recodex::clock::Timestamp;
use recodex::models::ModelInfo;
use recodex::models_dev::batch::{
    consult_cache_many, consult_cache_many_at, needs_enrichment, resolve_many, resolve_many_at,
};
use recodex::models_dev::enrichment::{
    consult_cache, consult_cache_at, found_record, is_fresh, missing_record, resolve, resolve_at,
    Verdict,
};
use recodex::models_dev::{
    apply_metadata, context_of, entry, find_entry, is_separator, metadata_from_entry, name_part,
    CacheMap, CacheRecord, CachedModelMetadata, CatalogMap, ModelsDevEntry, ModelsDevLimit,
};

/// The conservative description of a model that nothing is known of.
fn model_info_from_slug(slug: &str) -> ModelInfo {
    ModelInfo {
        slug: slug.to_string(),
        display_name: slug.to_string(),
        context_window: Some(272_000),
        max_context_window: Some(272_000),
        auto_compact_token_limit: None,
        used_fallback_model_metadata: true,
    }
}

/// A model of a provider listing.
fn minimal_remote(slug: &str) -> ModelInfo {
    ModelInfo {
        slug: slug.to_string(),
        display_name: slug.to_string(),
        context_window: None,
        max_context_window: None,
        auto_compact_token_limit: None,
        used_fallback_model_metadata: false,
    }
}

#[test]
fn name_part_strips_single_provider_prefix() {
    assert_eq!(name_part("zhipuai/glm-5.2"), "glm-5.2");
    assert_eq!(name_part("openai/gpt-5.2-codex"), "gpt-5.2-codex");
    assert_eq!(name_part("glm-5.2"), "glm-5.2");
    assert_eq!(name_part("/weird"), "weird");
    // A trailing slash with nothing after keeps the whole slug.
    assert_eq!(name_part("trailing/"), "trailing/");
}

#[test]
fn find_entry_matches_exact_key_then_name_then_prefix() {
    let mut catalog = CatalogMap::new();
    catalog.insert(
        "zhipuai/glm-5.2".to_string(),
        entry("GLM-5.2", Some(1_000_000)),
    );
    catalog.insert(
        "openai/gpt-5.2".to_string(),
        entry("GPT-5.2", Some(400_000)),
    );
    catalog.insert("openai/gpt-5".to_string(), entry("GPT-5", Some(400_000)));

    // Exact key.
    assert_eq!(
        context_of(find_entry("zhipuai/glm-5.2", &catalog)),
        Some(1_000_000)
    );
    // Exact name part, no provider prefix on the slug.
    assert_eq!(context_of(find_entry("glm-5.2", &catalog)), Some(1_000_000));
    // Case-insensitive name match.
    assert_eq!(context_of(find_entry("GLM-5.2", &catalog)), Some(1_000_000));
    // Prefix fallback: gpt-5.2 wins over gpt-5 for the codex variant.
    assert_eq!(
        find_entry("gpt-5.2-codex", &catalog).and_then(|e| e.name.clone()),
        Some("GPT-5.2".to_string())
    );
}

#[test]
fn find_entry_prefix_requires_separator_boundary() {
    let mut catalog = CatalogMap::new();
    // `glm-5` must NOT match `glm-50` (next char is a digit, not a separator).
    catalog.insert("zhipuai/glm-5".to_string(), entry("GLM-5", Some(128_000)));
    assert!(find_entry("glm-50", &catalog).is_none());
}

#[test]
fn find_entry_returns_none_for_truly_unknown_slug() {
    let catalog = CatalogMap::new();
    assert!(find_entry("totally-made-up-model", &catalog).is_none());
}

#[test]
fn metadata_from_entry_skips_empty_names_and_nonpositive_context() {
    let meta = metadata_from_entry(&ModelsDevEntry {
        name: Some("   ".to_string()),
        limit: Some(ModelsDevLimit { context: Some(0) }),
    });
    assert_eq!(meta.display_name, None);
    assert_eq!(meta.context_window, None);

    let meta = metadata_from_entry(&entry("GLM-5.2", Some(1_000_000)));
    assert_eq!(meta.display_name.as_deref(), Some("GLM-5.2"));
    assert_eq!(meta.context_window, Some(1_000_000));
}

#[test]
fn apply_metadata_overrides_context_window_and_clears_fallback_flag() {
    let mut model = model_info_from_slug("glm-5.2");
    assert!(model.used_fallback_model_metadata);
    // The fallback hardcodes a 272k window.
    assert_eq!(model.context_window, Some(272_000));

    let metadata = CachedModelMetadata {
        display_name: Some("GLM-5.2".to_string()),
        context_window: Some(1_000_000),
    };
    apply_metadata(&mut model, &metadata);

    assert!(!model.used_fallback_model_metadata);
    assert_eq!(model.context_window, Some(1_000_000));
    assert_eq!(model.max_context_window, Some(1_000_000));
    assert_eq!(model.auto_compact_token_limit, None);
    assert_eq!(model.display_name, "GLM-5.2");
}

fn catalog_of(entries: &[(&str, &str, Option<i64>)]) -> CatalogMap {
    let mut catalog = CatalogMap::new();
    for (key, name, context) in entries {
        catalog.insert(key.to_string(), entry(name, *context));
    }
    catalog
}

fn glm_catalog() -> CatalogMap {
    catalog_of(&[("zhipuai/glm-5.2", "GLM-5.2", Some(1_000_000))])
}

/// Both passes over a listing, with the catalog that can be had.
fn enrich_many(models: &mut [ModelInfo], cache: &mut CacheMap, catalog: Option<&CatalogMap>) -> bool {
    if !needs_enrichment(models) {
        return false;
    }
    let unresolved = consult_cache_many(models, cache);
    !unresolved.is_empty() && {
        resolve_many(models, &unresolved, cache, catalog);
        true
    }
}

#[test]
fn enrich_many_fills_context_window_for_byok_entries() {
    let mut cache = CacheMap::new();
    let mut models = vec![
        minimal_remote("glm-5.2"),
        minimal_remote("acme/unlisted-4.5"),
    ];
    assert!(models.iter().all(|model| model.context_window.is_none()));

    enrich_many(&mut models, &mut cache, Some(&glm_catalog()));

    let glm = models
        .iter()
        .find(|model| model.slug == "glm-5.2")
        .expect("glm-5.2 entry present");
    assert_eq!(glm.context_window, Some(1_000_000));
    assert_eq!(glm.max_context_window, Some(1_000_000));
    assert_eq!(glm.display_name, "GLM-5.2");

    let unlisted = models
        .iter()
        .find(|model| model.slug == "acme/unlisted-4.5")
        .expect("unlisted entry present");
    assert!(unlisted.context_window.is_none());
    assert!(cache
        .get("acme/unlisted-4.5")
        .unwrap()
        .not_found_at
        .is_some());
    assert_eq!(cache.len(), 2);
}

#[test]
fn enrich_many_is_noop_when_offline_and_when_already_enriched() {
    let mut cache = CacheMap::new();
    let mut offline_models = vec![minimal_remote("glm-5.2")];
    assert!(enrich_many(&mut offline_models, &mut cache, None));
    assert!(offline_models[0].context_window.is_none());
    assert!(cache.is_empty());

    let mut enriched = vec![minimal_remote("glm-5.2")];
    enriched[0].context_window = Some(200_000);
    assert!(!enrich_many(&mut enriched, &mut cache, Some(&glm_catalog())));
    assert_eq!(enriched[0].context_window, Some(200_000));
    assert_eq!(enriched[0].display_name, "glm-5.2");
}

#[test]
fn enrich_many_skips_network_once_cache_satisfies_all() {
    let mut cache = CacheMap::new();
    let mut first = vec![minimal_remote("glm-5.2")];
    assert!(enrich_many(&mut first, &mut cache, Some(&glm_catalog())));
    assert_eq!(first[0].context_window, Some(1_000_000));

    let mut second = vec![minimal_remote("glm-5.2")];
    assert!(
        !enrich_many(&mut second, &mut cache, Some(&glm_catalog())),
        "routine refresh should be satisfied from cache without re-fetching models.dev"
    );
    assert_eq!(second[0].context_window, Some(1_000_000));
    assert_eq!(second[0], first[0]);
}

#[test]
fn descriptors_with_a_window_are_left_alone_in_a_mixed_listing() {
    let mut cache = CacheMap::new();
    let mut models = vec![
        model_info_from_slug("glm-5.2"),
        minimal_remote("unknown"),
        minimal_remote("glm-5.2"),
    ];
    let before = models[0].clone();
    let unresolved = consult_cache_many(&mut models, &cache);
    assert_eq!(unresolved, vec![1, 2]);
    assert!(resolve_many(
        &mut models,
        &unresolved,
        &mut cache,
        Some(&glm_catalog())
    ));
    assert_eq!(models[0], before);
    assert_eq!(models[1], minimal_remote("unknown"));
    assert_eq!(models[2].display_name, "GLM-5.2");
    assert!(consult_cache_many(&mut models, &cache).is_empty());
    assert!(!resolve_many(&mut models, &[], &mut cache, Some(&glm_catalog())));
}

#[test]
fn a_found_slug_is_remembered() {
    let mut cache = CacheMap::new();
    let mut model = model_info_from_slug("GLM-5.2-air");
    assert_eq!(consult_cache(&mut model, &cache), Verdict::Unknown);
    assert!(resolve(&mut model, &mut cache, Some(&glm_catalog())));
    assert_eq!(model.slug, "GLM-5.2-air");
    assert_eq!(model.display_name, "GLM-5.2");
    assert!(!model.used_fallback_model_metadata);

    let mut again = model_info_from_slug("GLM-5.2-air");
    assert_eq!(consult_cache(&mut again, &cache), Verdict::Found);
    assert_eq!(again, model);
}

#[test]
fn a_missing_slug_is_remembered_and_changes_nothing() {
    let mut cache = CacheMap::new();
    let mut model = model_info_from_slug("nope");
    let before = model.clone();
    assert!(resolve(&mut model, &mut cache, Some(&glm_catalog())));
    assert_eq!(model, before);
    assert_eq!(consult_cache(&mut model, &cache), Verdict::Missing);
    assert_eq!(model, before);
    assert!(cache.get("nope").unwrap().found.is_none());
}

#[test]
fn without_a_catalog_nothing_changes() {
    let mut cache = CacheMap::new();
    let mut model = model_info_from_slug("glm-5.2");
    let before = model.clone();
    assert!(!resolve(&mut model, &mut cache, None));
    assert_eq!(model, before);
    assert!(cache.is_empty());
}

#[test]
fn a_stale_miss_is_looked_up_again_and_replaced() {
    let mut cache = CacheMap::new();
    let long_ago = Timestamp::new(0, 0).unwrap();
    cache.insert("glm-5.2".to_string(), missing_record(long_ago));
    let mut model = model_info_from_slug("glm-5.2");
    assert_eq!(consult_cache(&mut model, &cache), Verdict::Unknown);
    resolve(&mut model, &mut cache, Some(&glm_catalog()));
    assert_eq!(cache.len(), 1);
    assert_eq!(consult_cache(&mut model, &cache), Verdict::Found);
}

#[test]
fn a_record_with_metadata_counts_as_found_whatever_else_it_holds() {
    let mut cache = CacheMap::new();
    cache.insert(
        "x".to_string(),
        CacheRecord {
            found: Some(CachedModelMetadata {
                display_name: None,
                context_window: Some(5),
            }),
            not_found_at: Some(Timestamp::now()),
        },
    );
    cache.insert(
        "y".to_string(),
        CacheRecord {
            found: None,
            not_found_at: None,
        },
    );
    let mut model = model_info_from_slug("x");
    assert_eq!(consult_cache(&mut model, &cache), Verdict::Found);
    assert_eq!(model.context_window, Some(5));
    assert_eq!(model.display_name, "x");
    let mut model = model_info_from_slug("y");
    assert_eq!(consult_cache(&mut model, &cache), Verdict::Unknown);
}

#[test]
fn a_miss_is_fresh_for_less_than_a_day() {
    let checked = Timestamp::new(1_700_000_000, 500_000_000).unwrap();
    let day_later = |secs: i64, nanos: u32| Timestamp::new(1_700_086_400 + secs, nanos).unwrap();
    assert!(is_fresh(&checked, &checked));
    assert!(is_fresh(&checked, &day_later(0, 499_999_999)));
    assert!(!is_fresh(&checked, &day_later(0, 500_000_000)));
    assert!(!is_fresh(&checked, &day_later(1, 0)));
    // A clock that was set back.
    assert!(is_fresh(&day_later(0, 0), &checked));
}

#[test]
fn records_hold_one_outcome() {
    let metadata = CachedModelMetadata {
        display_name: Some("N".to_string()),
        context_window: None,
    };
    let found = found_record(metadata.clone());
    assert_eq!(found.found, Some(metadata));
    assert_eq!(found.not_found_at, None);
    let at = Timestamp::new(1, 2).unwrap();
    let missing = missing_record(at);
    assert_eq!(missing.found, None);
    assert_eq!(missing.not_found_at, Some(at));
}

#[test]
fn separators_are_four_bytes() {
    for byte in 0..=255u8 {
        let expected = [b'-', b'.', b'_', b'/'].contains(&byte);
        assert_eq!(is_separator(Some(byte)), expected);
    }
    assert!(!is_separator(None));
}

#[test]
fn name_part_strips_one_segment_only() {
    assert_eq!(name_part("a/b/c"), "b/c");
    assert_eq!(name_part(""), "");
    assert_eq!(name_part("/"), "/");
    assert_eq!(name_part("é/世界"), "世界");
}

#[test]
fn find_entry_prefers_exact_keys_to_names_and_names_to_prefixes() {
    let catalog = catalog_of(&[
        ("x/gpt", "prefix", None),
        ("x/gpt-5-mini", "name", None),
        ("GPT-5-mini", "key", None),
    ]);
    let name_of = |slug: &str| find_entry(slug, &catalog).and_then(|e| e.name.clone());
    assert_eq!(name_of("GPT-5-mini").as_deref(), Some("key"));
    assert_eq!(name_of("gpt-5-MINI").as_deref(), Some("name"));
    assert_eq!(name_of("gpt-5").as_deref(), Some("prefix"));
    assert_eq!(name_of("gpt"), Some("prefix".to_string()));
    assert_eq!(name_of("gp"), None);
    assert_eq!(name_of("gpt5"), None);
}

#[test]
fn find_entry_takes_the_longest_prefix_in_any_order() {
    let entries = [
        ("a/glm", "short", None),
        ("b/glm-5.2", "long", None),
        ("c/glm-5", "middle", None),
    ];
    let mut reversed = entries;
    reversed.reverse();
    for list in [entries, reversed] {
        let catalog = catalog_of(&list);
        let found = find_entry("GLM-5.2_x", &catalog).unwrap();
        assert_eq!(found.name.as_deref(), Some("long"));
    }
}

#[test]
fn find_entry_folds_ascii_letters_only() {
    let catalog = catalog_of(&[("p/É-model", "upper", None)]);
    assert!(find_entry("é-model", &catalog).is_none());
    assert!(find_entry("É-MODEL", &catalog).is_some());
}

#[test]
fn metadata_keeps_what_is_usable() {
    let meta = metadata_from_entry(&entry(" \u{3000}A B\n", None));
    assert_eq!(meta.display_name.as_deref(), Some("A B"));
    assert_eq!(meta.context_window, None);
    let meta = metadata_from_entry(&entry("", Some(-5)));
    assert_eq!(meta.display_name, None);
    assert_eq!(meta.context_window, None);
    let meta = metadata_from_entry(&ModelsDevEntry {
        name: None,
        limit: Some(ModelsDevLimit { context: Some(1) }),
    });
    assert_eq!(meta.display_name, None);
    assert_eq!(meta.context_window, Some(1));
}

#[test]
fn empty_metadata_only_clears_the_fallback_flag() {
    let mut model = model_info_from_slug("m");
    model.auto_compact_token_limit = Some(9);
    let nothing = CachedModelMetadata {
        display_name: None,
        context_window: None,
    };
    let mut expected = model.clone();
    expected.used_fallback_model_metadata = false;
    apply_metadata(&mut model, &nothing);
    assert_eq!(model, expected);
}

#[test]
fn an_entry_without_a_limit_has_no_context() {
    assert_eq!(context_of(None), None);
    assert_eq!(context_of(Some(&entry("n", None))), None);
    assert_eq!(context_of(Some(&entry("n", Some(3)))), Some(3));
}

#[test]
fn the_verdict_on_a_miss_turns_after_a_day() {
    let at = |secs: i64| Timestamp::new(secs, 0).unwrap();
    let mut cache = CacheMap::new();
    let mut model = model_info_from_slug("nope");
    let before = model.clone();
    assert!(resolve_at(&mut model, &mut cache, Some(&glm_catalog()), at(1_000)));
    assert_eq!(cache.get("nope").unwrap().not_found_at, Some(at(1_000)));
    let mut verdict = |secs: i64| consult_cache_at(&mut model, &cache, &at(secs));
    assert_eq!(verdict(0), Verdict::Missing);
    assert_eq!(verdict(1_000), Verdict::Missing);
    assert_eq!(verdict(87_399), Verdict::Missing);
    assert_eq!(verdict(87_400), Verdict::Unknown);
    assert_eq!(verdict(1_000_000), Verdict::Unknown);
    assert_eq!(model, before);
    assert!(!resolve_at(&mut model, &mut cache, None, at(5)));
    assert_eq!(cache.get("nope").unwrap().not_found_at, Some(at(1_000)));
}

#[test]
fn a_listing_is_judged_at_the_given_time() {
    let at = |secs: i64| Timestamp::new(secs, 0).unwrap();
    let mut cache = CacheMap::new();
    let listing = || vec![minimal_remote("nope"), minimal_remote("glm-5.2")];
    let mut models = listing();
    let unresolved = consult_cache_many_at(&mut models, &cache, &at(0));
    assert_eq!(unresolved, vec![0, 1]);
    let catalog = glm_catalog();
    assert!(resolve_many_at(&mut models, &unresolved, &mut cache, Some(&catalog), at(10)));
    assert_eq!(models[1].context_window, Some(1_000_000));
    assert_eq!(cache.get("nope").unwrap().not_found_at, Some(at(10)));

    let mut early = listing();
    assert!(consult_cache_many_at(&mut early, &cache, &at(86_409)).is_empty());
    assert_eq!(early[1], models[1]);
    let mut late = listing();
    assert_eq!(consult_cache_many_at(&mut late, &cache, &at(86_410)), vec![0]);
}

#[test]
fn a_lookup_records_the_time_of_a_miss_only() {
    let now = Timestamp::new(77, 7).unwrap();
    let mut cache = CacheMap::new();
    let catalog = glm_catalog();
    for slug in ["nope", "glm-5.2"] {
        let mut model = model_info_from_slug(slug);
        assert!(resolve_at(&mut model, &mut cache, Some(&catalog), now));
    }
    assert_eq!(cache.get("nope").unwrap().not_found_at, Some(now));
    assert_eq!(cache.get("glm-5.2").unwrap().not_found_at, None);
    assert!(cache.get("glm-5.2").unwrap().found.is_some());
}
