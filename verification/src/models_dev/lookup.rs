//! Finding the catalog entry for a slug, tolerant of provider prefixes, of case
//! and of version suffixes.

use vstd::prelude::*;

use super::{CatalogMap, ModelsDevEntry, ModelsDevEntryView};
use crate::text;
use crate::text::{bytes_eq, chars_of, starts_with, to_ascii_lowercase};

verus! {

/// What follows the first `/`, if there is one.
pub open spec fn after_slash(slug: Seq<char>) -> Option<Seq<char>>
    decreases slug.len(),
{
    if slug.len() == 0 {
        None
    } else if slug[0] == '/' {
        Some(slug.skip(1))
    } else {
        after_slash(slug.skip(1))
    }
}

/// A slug without its `provider/` segment. A slug that nothing follows that
/// segment in is its own name.
pub open spec fn name_part_of(slug: Seq<char>) -> Seq<char> {
    match after_slash(slug) {
        Some(name) if name.len() > 0 => name,
        _ => slug,
    }
}

/// A slug without its `provider/` segment.
pub fn name_part(slug: &str) -> (r: &str)
    ensures
        r@ == name_part_of(slug@),
{
    let chars = chars_of(slug);
    let mut i: usize = 0;
    assert(slug@.skip(0) =~= slug@);
    while i < chars.len()
        invariant
            i <= chars.len(),
            chars@ == slug@,
            after_slash(slug@.skip(i as int)) == after_slash(slug@),
        decreases chars.len() - i,
    {
        assert(slug@.skip(i as int).skip(1) =~= slug@.skip(i + 1));
        if chars[i] == '/' {
            if i + 1 < chars.len() {
                assert(slug@.subrange(i + 1, slug@.len() as int) =~= slug@.skip(i + 1));
                return slug.substring_char(i + 1, chars.len());
            }
            return slug;
        }
        i = i + 1;
    }
    slug
}

/// The bytes that separate a name from a suffix: `-`, `.`, `_` and `/`.
pub open spec fn separates(byte: u8) -> bool {
    byte == 0x2d || byte == 0x2e || byte == 0x5f || byte == 0x2f
}

/// Whether a byte is there and is one of `-`, `.`, `_` and `/`.
pub fn is_separator(byte: Option<u8>) -> (r: bool)
    ensures
        r == (byte matches Some(b) && separates(b)),
{
    match byte {
        Some(b) => b == 0x2d || b == 0x2e || b == 0x5f || b == 0x2f,
        None => false,
    }
}

/// The name that slugs are compared by: without provider, in lower case.
pub open spec fn folded(slug: Seq<char>) -> Seq<u8> {
    text::ascii_lower_bytes(name_part_of(slug))
}

/// Whether a name is another one without its suffix: what follows it there
/// starts with a separator.
pub open spec fn is_clean_prefix(name: Seq<u8>, target: Seq<u8>) -> bool {
    name.len() < target.len() && name.is_prefix_of(target) && separates(target[name.len() as int])
}

/// The position of the first key that is the slug itself.
pub open spec fn exact_position<V>(entries: Seq<(Seq<char>, V)>, slug: Seq<char>) -> Option<int>
    decreases entries.len(),
{
    if entries.len() == 0 {
        None
    } else {
        match exact_position(entries.drop_last(), slug) {
            Some(i) => Some(i),
            None => if entries.last().0 == slug {
                Some(entries.len() - 1)
            } else {
                None
            },
        }
    }
}

/// The position of the first key whose name is the target.
pub open spec fn name_position<V>(entries: Seq<(Seq<char>, V)>, target: Seq<u8>) -> Option<int>
    decreases entries.len(),
{
    if entries.len() == 0 {
        None
    } else {
        match name_position(entries.drop_last(), target) {
            Some(i) => Some(i),
            None => if folded(entries.last().0) == target {
                Some(entries.len() - 1)
            } else {
                None
            },
        }
    }
}

/// The position of the first key with the longest name that is a clean prefix
/// of the target.
pub open spec fn prefix_position<V>(entries: Seq<(Seq<char>, V)>, target: Seq<u8>) -> Option<int>
    decreases entries.len(),
{
    if entries.len() == 0 {
        None
    } else {
        let best = prefix_position(entries.drop_last(), target);
        let name = folded(entries.last().0);
        if is_clean_prefix(name, target) && (best matches Some(i) ==> name.len() > folded(
            entries[i].0,
        ).len()) {
            Some(entries.len() - 1)
        } else {
            best
        }
    }
}

/// The position of the entry for a slug: the slug's own, else the first one of
/// its name, else the one of the longest name that it extends.
pub open spec fn position_of<V>(entries: Seq<(Seq<char>, V)>, slug: Seq<char>) -> Option<int> {
    match exact_position(entries, slug) {
        Some(i) => Some(i),
        None => match name_position(entries, folded(slug)) {
            Some(i) => Some(i),
            None => prefix_position(entries, folded(slug)),
        },
    }
}

/// What the catalog has for a slug.
pub open spec fn lookup(
    catalog: Seq<(Seq<char>, ModelsDevEntryView)>,
    slug: Seq<char>,
) -> Option<ModelsDevEntryView> {
    match position_of(catalog, slug) {
        Some(i) => Some(catalog[i].1),
        None => None,
    }
}

/// Positions lie within the entries, and hold what was searched for.
pub(crate) proof fn lemma_positions<V>(entries: Seq<(Seq<char>, V)>, slug: Seq<char>, target: Seq<u8>)
    ensures
        match exact_position(entries, slug) {
            Some(i) => 0 <= i < entries.len() && entries[i].0 == slug && forall|j: int|
                0 <= j < i ==> (#[trigger] entries[j]).0 != slug,
            None => forall|j: int| 0 <= j < entries.len() ==> (#[trigger] entries[j]).0 != slug,
        },
        match name_position(entries, target) {
            Some(i) => 0 <= i < entries.len() && folded(entries[i].0) == target && forall|j: int|
                0 <= j < i ==> folded((#[trigger] entries[j]).0) != target,
            None => forall|j: int|
                0 <= j < entries.len() ==> folded((#[trigger] entries[j]).0) != target,
        },
        match prefix_position(entries, target) {
            Some(i) => 0 <= i < entries.len() && is_clean_prefix(folded(entries[i].0), target)
                && forall|j: int|
                0 <= j < entries.len() && is_clean_prefix(folded((#[trigger] entries[j]).0), target)
                    ==> folded(entries[j].0).len() <= folded(entries[i].0).len() && (j < i
                    ==> folded(entries[j].0).len() < folded(entries[i].0).len()),
            None => forall|j: int|
                0 <= j < entries.len() ==> !is_clean_prefix(
                    folded((#[trigger] entries[j]).0),
                    target,
                ),
        },
    decreases entries.len(),
{
    if entries.len() > 0 {
        let front = entries.drop_last();
        lemma_positions(front, slug, target);
        assert forall|j: int| 0 <= j < front.len() implies front[j] == #[trigger] entries[j] by {}
    }
}

/// The first entries and the next one.
proof fn lemma_next<V>(entries: Seq<(Seq<char>, V)>, n: int)
    requires
        0 <= n < entries.len(),
    ensures
        entries.take(n + 1).drop_last() == entries.take(n),
        entries.take(n + 1).last() == entries[n],
{
    assert(entries.take(n + 1).drop_last() =~= entries.take(n));
}

/// A match of names among the first entries is the one of all entries.
proof fn lemma_name_kept<V>(entries: Seq<(Seq<char>, V)>, n: int, target: Seq<u8>)
    requires
        0 <= n <= entries.len(),
        name_position(entries.take(n), target) is Some,
    ensures
        name_position(entries, target) == name_position(entries.take(n), target),
    decreases entries.len() - n,
{
    if n < entries.len() {
        lemma_next(entries, n);
        lemma_name_kept(entries, n + 1, target);
    } else {
        assert(entries.take(n) =~= entries);
    }
}

/// The entry for a slug: that of the slug itself, else the first one with the
/// same name, whatever the provider and case, else that of the longest name that
/// the slug extends by a suffix.
pub fn find_entry<'a>(slug: &str, catalog: &'a CatalogMap) -> (r: Option<&'a ModelsDevEntry>)
    ensures
        match r {
            Some(entry) => lookup(catalog.entry_views(), slug@) == Some(entry.deep_view()),
            None => lookup(catalog.entry_views(), slug@) is None,
        },
{
    let ghost entries = catalog.entry_views();
    proof {
        lemma_positions(entries, slug@, folded(slug@));
    }
    if let Some(entry) = catalog.get(slug) {
        proof {
            let stored = catalog.entries();
            let i = choose|i: int|
                0 <= i < stored.len() && (#[trigger] stored[i]) == (slug@, *entry) && forall|j: int|
                    0 <= j < i ==> (#[trigger] stored[j]).0 != slug@;
            assert(entries[i].0 == slug@);
            let first = exact_position(entries, slug@)->0;
            assert(stored[first].0 == slug@);
        }
        return Some(entry);
    }

    let target = to_ascii_lowercase(name_part(slug));
    let mut best: Option<(usize, &'a ModelsDevEntry)> = None;
    let ghost mut best_at: int = 0;
    let mut k: usize = 0;
    assert(entries.take(0).len() == 0);
    while k < catalog.len()
        invariant
            entries == catalog.entry_views(),
            k <= entries.len(),
            target@ == folded(slug@),
            exact_position(entries, slug@) is None,
            name_position(entries.take(k as int), target@) is None,
            match best {
                Some((len, entry)) => {
                    &&& prefix_position(entries.take(k as int), target@) == Some(best_at)
                    &&& 0 <= best_at < k
                    &&& entry.deep_view() == entries[best_at].1
                    &&& len == folded(entries[best_at].0).len()
                },
                None => prefix_position(entries.take(k as int), target@) is None,
            },
        decreases entries.len() - k,
    {
        let (key, entry) = catalog.entry_at(k);
        let candidate = to_ascii_lowercase(name_part(key));
        proof {
            lemma_next(entries, k as int);
            if candidate@ == target@ {
                lemma_name_kept(entries, k + 1, target@);
            }
        }
        if bytes_eq(candidate.as_slice(), target.as_slice()) {
            return Some(entry);
        }
        if candidate.len() < target.len() && starts_with(target.as_slice(), candidate.as_slice())
            && is_separator(Some(target[candidate.len()])) {
            let is_better = match best {
                None => true,
                Some((best_len, _)) => candidate.len() > best_len,
            };
            if is_better {
                best = Some((candidate.len(), entry));
                proof {
                    best_at = k as int;
                }
            }
        }
        k = k + 1;
    }
    assert(entries.take(k as int) =~= entries);
    match best {
        Some((_, entry)) => Some(entry),
        None => None,
    }
}

/// Whether an entry can stand for a slug at all.
pub open spec fn stands_for(key: Seq<char>, slug: Seq<char>) -> bool {
    key == slug || folded(key) == folded(slug) || is_clean_prefix(folded(key), folded(slug))
}

/// A slug is found if and only if some entry can stand for it. Its own entry comes
/// before any other, one of its name before any prefix, and of the prefixes the
/// longest is taken.
pub proof fn law_best_entry_found<V>(entries: Seq<(Seq<char>, V)>, slug: Seq<char>)
    ensures
        position_of(entries, slug) is None <==> forall|j: int|
            0 <= j < entries.len() ==> !stands_for((#[trigger] entries[j]).0, slug),
        position_of(entries, slug) matches Some(i) ==> {
            &&& 0 <= i < entries.len()
            &&& stands_for(entries[i].0, slug)
            &&& forall|j: int|
                0 <= j < entries.len() && (#[trigger] entries[j]).0 == slug ==> entries[i].0 == slug
            &&& forall|j: int|
                0 <= j < entries.len() && folded((#[trigger] entries[j]).0) == folded(slug)
                    ==> folded(entries[i].0) == folded(slug)
            &&& forall|j: int|
                0 <= j < entries.len() && stands_for((#[trigger] entries[j]).0, slug)
                    ==> folded(entries[j].0).len() <= folded(entries[i].0).len()
        },
{
    lemma_positions(entries, slug, folded(slug));
    if let Some(i) = position_of(entries, slug) {
        assert(stands_for(entries[i].0, slug));
    }
}

/// Neither the provider nor the case of a slug matters, unless the slug as it is
/// written is a key.
pub proof fn law_provider_and_case_ignored<V>(
    entries: Seq<(Seq<char>, V)>,
    a: Seq<char>,
    b: Seq<char>,
)
    requires
        folded(a) == folded(b),
        forall|j: int|
            0 <= j < entries.len() ==> (#[trigger] entries[j]).0 != a && entries[j].0 != b,
    ensures
        position_of(entries, a) == position_of(entries, b),
{
    lemma_positions(entries, a, folded(a));
    lemma_positions(entries, b, folded(b));
}

/// The order of the catalog decides neither whether a slug is found nor by which
/// name.
pub proof fn law_order_irrelevant<V>(
    first: Seq<(Seq<char>, V)>,
    second: Seq<(Seq<char>, V)>,
    slug: Seq<char>,
)
    requires
        first.to_multiset() == second.to_multiset(),
    ensures
        position_of(first, slug) is Some <==> position_of(second, slug) is Some,
        position_of(first, slug) is Some ==> folded(first[position_of(first, slug)->0].0) == folded(
            second[position_of(second, slug)->0].0,
        ),
        forall|i: int, j: int|
            0 <= i < first.len() && 0 <= j < second.len() && (#[trigger] first[i]).0 == slug && (
            #[trigger] second[j]).0 == slug ==> first[position_of(first, slug)->0].0
                == second[position_of(second, slug)->0].0,
{
    first.to_multiset_ensures();
    second.to_multiset_ensures();
    law_best_entry_found(first, slug);
    law_best_entry_found(second, slug);
    assert forall|i: int| 0 <= i < first.len() implies second.contains(#[trigger] first[i]) by {
        assert(first.contains(first[i]));
        assert(second.to_multiset().count(first[i]) > 0);
    }
    assert forall|j: int| 0 <= j < second.len() implies first.contains(#[trigger] second[j]) by {
        assert(second.contains(second[j]));
        assert(first.to_multiset().count(second[j]) > 0);
    }
    match (position_of(first, slug), position_of(second, slug)) {
        (Some(i), Some(j)) => {
            let j2 = choose|j2: int| 0 <= j2 < second.len() && second[j2] == first[i];
            let i2 = choose|i2: int| 0 <= i2 < first.len() && first[i2] == second[j];
            assert(folded(second[j2].0) == folded(first[i].0));
            assert(folded(first[i2].0) == folded(second[j].0));
            assert(folded(first[i].0) =~= folded(second[j].0));
        },
        (Some(i), None) => {
            let j2 = choose|j2: int| 0 <= j2 < second.len() && second[j2] == first[i];
            assert(stands_for(second[j2].0, slug));
        },
        (None, Some(j)) => {
            let i2 = choose|i2: int| 0 <= i2 < first.len() && first[i2] == second[j];
            assert(stands_for(first[i2].0, slug));
        },
        (None, None) => {},
    }
}

} // verus!
