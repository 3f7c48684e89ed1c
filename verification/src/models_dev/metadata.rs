//! What is taken from a catalog entry, and what it changes in a descriptor.

use vstd::prelude::*;

use super::{CachedModelMetadata, CachedModelMetadataView, ModelsDevEntry, ModelsDevEntryView};
use crate::models::{ModelInfo, ModelInfoView};
use crate::text;
use crate::text::trim;

verus! {

/// What an entry gives: its name without the white space around it, unless
/// nothing is left of it, and its context window, if that is positive.
pub open spec fn metadata_of(entry: ModelsDevEntryView) -> CachedModelMetadataView {
    CachedModelMetadataView {
        display_name: match entry.name {
            Some(name) if text::trim_chars(name).len() > 0 => Some(text::trim_chars(name)),
            _ => None,
        },
        context_window: match entry.context() {
            Some(context) if context > 0 => Some(context),
            _ => None,
        },
    }
}

/// What an entry gives of a model.
pub fn metadata_from_entry(entry: &ModelsDevEntry) -> (r: CachedModelMetadata)
    ensures
        r.deep_view() == metadata_of(entry.deep_view()),
{
    let display_name = match &entry.name {
        Some(name) => {
            let trimmed = trim(name.as_str());
            if trimmed.unicode_len() > 0 {
                Some(trimmed.to_string())
            } else {
                None
            }
        },
        None => None,
    };
    let context_window = match &entry.limit {
        Some(limit) => match limit.context {
            Some(context) => if context > 0 {
                Some(context)
            } else {
                None
            },
            None => None,
        },
        None => None,
    };
    CachedModelMetadata { display_name, context_window }
}

/// A descriptor with metadata merged onto it. The ceiling follows the window,
/// and the compaction threshold is left to be derived from it.
pub open spec fn applied(
    model: ModelInfoView,
    metadata: CachedModelMetadataView,
) -> ModelInfoView {
    let named = match metadata.display_name {
        Some(display_name) => ModelInfoView { display_name, ..model },
        None => model,
    };
    let sized = match metadata.context_window {
        Some(window) => ModelInfoView {
            context_window: Some(window),
            max_context_window: Some(window),
            auto_compact_token_limit: None,
            ..named
        },
        None => named,
    };
    ModelInfoView { used_fallback_model_metadata: false, ..sized }
}

/// Merges metadata onto a descriptor.
pub fn apply_metadata(model: &mut ModelInfo, metadata: &CachedModelMetadata)
    ensures
        final(model).deep_view() == applied(old(model).deep_view(), metadata.deep_view()),
{
    if let Some(display_name) = &metadata.display_name {
        model.display_name = display_name.clone();
    }
    if let Some(context_window) = metadata.context_window {
        model.context_window = Some(context_window);
        model.max_context_window = Some(context_window);
        model.auto_compact_token_limit = None;
    }
    model.used_fallback_model_metadata = false;
}

/// Metadata from the catalog never holds a blank name or a window of no size,
/// and a name in it carries no white space around it.
pub proof fn law_metadata_is_sane(entry: ModelsDevEntryView)
    ensures
        metadata_of(entry).display_name matches Some(name) ==> name.len() > 0
            && !text::is_white_space(name[0]) && !text::is_white_space(name.last()),
        metadata_of(entry).context_window matches Some(window) ==> window > 0,
{
    if let Some(name) = entry.name {
        let start = text::trim_start_chars(name);
        text::lemma_trim_start(name);
        text::lemma_trim_end(start);
    }
}

/// Merging metadata never changes the slug, never loses a window or a name, and
/// doing it twice is doing it once.
pub proof fn law_metadata_applied(model: ModelInfoView, metadata: CachedModelMetadataView)
    ensures
        applied(model, metadata).slug == model.slug,
        metadata.display_name is None ==> applied(model, metadata).display_name
            == model.display_name,
        metadata.display_name is Some ==> applied(model, metadata).display_name
            == metadata.display_name->0,
        metadata.context_window is None ==> {
            &&& applied(model, metadata).context_window == model.context_window
            &&& applied(model, metadata).max_context_window == model.max_context_window
            &&& applied(model, metadata).auto_compact_token_limit == model.auto_compact_token_limit
        },
        metadata.context_window is Some ==> {
            &&& applied(model, metadata).context_window == metadata.context_window
            &&& applied(model, metadata).max_context_window == metadata.context_window
            &&& applied(model, metadata).auto_compact_token_limit is None
        },
        !applied(model, metadata).used_fallback_model_metadata,
        applied(applied(model, metadata), metadata) == applied(model, metadata),
{
}

/// A name is kept as it is, without the white space around it; a blank one, like
/// none, gives none. A context window is kept where it is positive.
pub proof fn law_usable_metadata_kept(
    entry: ModelsDevEntryView,
    before: Seq<char>,
    name: Seq<char>,
    after: Seq<char>,
)
    requires
        text::is_blank(before),
        text::is_blank(after),
        name.len() > 0 ==> !text::is_white_space(name[0]) && !text::is_white_space(name.last()),
    ensures
        entry.name == Some(before + name + after) && name.len() > 0 ==> metadata_of(
            entry,
        ).display_name == Some(name),
        entry.name == Some(before + name + after) && name.len() == 0 ==> metadata_of(
            entry,
        ).display_name is None,
        entry.name is None ==> metadata_of(entry).display_name is None,
        entry.limit is None ==> metadata_of(entry).context_window is None,
        entry.limit is Some && entry.limit->0.context is None ==> metadata_of(
            entry,
        ).context_window is None,
        entry.limit is Some && entry.limit->0.context is Some && entry.limit->0.context->0 > 0
            ==> metadata_of(entry).context_window == entry.limit->0.context,
        entry.limit is Some && entry.limit->0.context is Some && entry.limit->0.context->0 <= 0
            ==> metadata_of(entry).context_window is None,
{
    text::law_trim_takes_white_space_around(before, name, after);
}

} // verus!
