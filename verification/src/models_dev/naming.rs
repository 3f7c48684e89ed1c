//! What it means for the characters of keys and slugs that an entry is found.

use vstd::prelude::*;
use vstd::utf8::*;

use super::lookup;
use super::ModelsDevEntryView;
use crate::text;

verus! {

/// A letter `A` to `Z` in lower case; any other character as it is.
pub open spec fn lower_letter(c: char) -> char {
    if 'A' <= c <= 'Z' {
        ((c as u32) + 32) as char
    } else {
        c
    }
}

/// Whether two strings differ at most in the case of letters `A` to `Z`.
pub open spec fn same_letters(a: Seq<char>, b: Seq<char>) -> bool {
    a.len() == b.len() && forall|i: int|
        0 <= i < a.len() ==> #[trigger] lower_letter(a[i]) == lower_letter(b[i])
}

/// Whether a character can part a name from a suffix.
pub open spec fn is_mark(c: char) -> bool {
    c == '-' || c == '.' || c == '_' || c == '/'
}

/// Whether `long` is `short`, whatever the case, then a mark, then anything.
pub open spec fn extends(long: Seq<char>, short: Seq<char>) -> bool {
    short.len() < long.len() && same_letters(short, long.take(short.len() as int)) && is_mark(
        long[short.len() as int],
    )
}

/// Whether a slug consists of a provider, a `/` and the name, or of the name alone.
/// Where nothing follows the first `/`, the whole slug is the name.
pub open spec fn has_name(slug: Seq<char>, name: Seq<char>) -> bool {
    ||| slug == name && !slug.contains('/')
    ||| slug == name && exists|provider: Seq<char>|
        !provider.contains('/') && slug == #[trigger] provider.push('/')
    ||| name.len() > 0 && exists|provider: Seq<char>|
        !provider.contains('/') && slug == #[trigger] provider.push('/') + name
}

proof fn lemma_after_slash(provider: Seq<char>, rest: Seq<char>)
    requires
        !provider.contains('/'),
    ensures
        lookup::after_slash(provider.push('/') + rest) == Some(rest),
    decreases provider.len(),
{
    let slug = provider.push('/') + rest;
    if provider.len() == 0 {
        assert(slug.skip(1) =~= rest);
    } else {
        let tail = provider.skip(1);
        assert(slug[0] == provider[0]);
        assert(provider.contains(provider[0]));
        assert forall|c: char| tail.contains(c) implies provider.contains(c) by {
            let k = choose|k: int| 0 <= k < tail.len() && tail[k] == c;
            assert(provider[k + 1] == c);
        }
        lemma_after_slash(tail, rest);
        assert(slug.skip(1) =~= tail.push('/') + rest);
    }
}

proof fn lemma_no_slash(slug: Seq<char>)
    requires
        !slug.contains('/'),
    ensures
        lookup::after_slash(slug) is None,
    decreases slug.len(),
{
    if slug.len() > 0 {
        assert(slug.contains(slug[0]));
        let tail = slug.skip(1);
        assert forall|c: char| tail.contains(c) implies slug.contains(c) by {
            let k = choose|k: int| 0 <= k < tail.len() && tail[k] == c;
            assert(slug[k + 1] == c);
        }
        lemma_no_slash(tail);
    }
}

/// The name of a slug is what follows its first `/`; where nothing does, it is the
/// whole slug.
pub proof fn law_name_follows_first_slash(provider: Seq<char>, rest: Seq<char>)
    requires
        !provider.contains('/'),
    ensures
        rest.len() > 0 ==> lookup::name_part_of(provider.push('/') + rest) == rest,
        lookup::name_part_of(provider.push('/')) == provider.push('/'),
        lookup::name_part_of(provider) == provider,
{
    lemma_after_slash(provider, rest);
    lemma_after_slash(provider, Seq::empty());
    assert(provider.push('/') + Seq::<char>::empty() =~= provider.push('/'));
    lemma_no_slash(provider);
}

/// The name of a slug is the one that it has.
pub proof fn law_has_its_name(slug: Seq<char>, name: Seq<char>)
    ensures
        has_name(slug, name) <==> name == lookup::name_part_of(slug),
    decreases slug.len(),
{
    if has_name(slug, name) {
        if !slug.contains('/') {
            law_name_follows_first_slash(slug, Seq::empty());
            if slug != name {
                let provider = choose|provider: Seq<char>|
                    !provider.contains('/') && slug == #[trigger] provider.push('/') + name;
                assert(slug[provider.len() as int] == '/');
            }
        } else if slug == name && exists|provider: Seq<char>|
            !provider.contains('/') && slug == #[trigger] provider.push('/') {
            let provider = choose|provider: Seq<char>|
                !provider.contains('/') && slug == #[trigger] provider.push('/');
            law_name_follows_first_slash(provider, Seq::empty());
        } else {
            let provider = choose|provider: Seq<char>|
                !provider.contains('/') && slug == #[trigger] provider.push('/') + name;
            law_name_follows_first_slash(provider, name);
        }
    }
    if slug.contains('/') {
        let (provider, rest) = lemma_first_slash(slug);
        law_name_follows_first_slash(provider, rest);
        if rest.len() == 0 {
            assert(provider.push('/') + rest =~= provider.push('/'));
        }
        assert(has_name(slug, lookup::name_part_of(slug)));
    } else {
        law_name_follows_first_slash(slug, Seq::empty());
    }
}

/// A slug with a `/`, parted at the first one.
proof fn lemma_first_slash(slug: Seq<char>) -> (parts: (Seq<char>, Seq<char>))
    requires
        slug.contains('/'),
    ensures
        !parts.0.contains('/'),
        slug == parts.0.push('/') + parts.1,
    decreases slug.len(),
{
    if slug[0] == '/' {
        let rest = slug.skip(1);
        assert(slug =~= Seq::<char>::empty().push('/') + rest);
        (Seq::empty(), rest)
    } else {
        let tail = slug.skip(1);
        let k = choose|k: int| 0 <= k < slug.len() && slug[k] == '/';
        assert(tail[k - 1] == '/');
        let (provider, rest) = lemma_first_slash(tail);
        let all = seq![slug[0]] + provider;
        assert(!all.contains('/')) by {
            if all.contains('/') {
                let j = choose|j: int| 0 <= j < all.len() && all[j] == '/';
                assert(provider[j - 1] == '/');
            }
        }
        assert(slug =~= all.push('/') + rest) by {
            assert(tail =~= slug.skip(1));
            assert forall|i: int| 0 < i < slug.len() implies slug[i] == (all.push('/') + rest)[i] by {
                assert(slug[i] == tail[i - 1]);
            }
        }
        (all, rest)
    }
}

/// A string with its letters `A` to `Z` in lower case.
spec fn lowered(s: Seq<char>) -> Seq<char> {
    s.map_values(|c: char| lower_letter(c))
}

proof fn lemma_lower_scalar(c: char)
    ensures
        encode_scalar(lower_letter(c) as u32) == encode_scalar(c as u32).map_values(
            |b: u8| text::ascii_lower(b),
        ),
{
    let v = c as u32;
    char_is_scalar(c);
    if has_width_1_encoding(v) {
        assert(v <= 0x7f ==> (v & 0x7f) as u8 == v) by (bit_vector);
        let w = lower_letter(c) as u32;
        assert(w <= 0x7f ==> (w & 0x7f) as u8 == w) by (bit_vector);
        assert(encode_scalar(w) =~= encode_scalar(v).map_values(|b: u8| text::ascii_lower(b)));
    } else {
        assert(0xC0u8 | ((v >> 6) & 0x1F) as u8 >= 0x80) by (bit_vector);
        assert(0xE0u8 | ((v >> 12) & 0x0F) as u8 >= 0x80) by (bit_vector);
        assert(0xF0u8 | ((v >> 18) & 0x7) as u8 >= 0x80) by (bit_vector);
        assert(0x80u8 | (v & 0x3F) as u8 >= 0x80) by (bit_vector);
        assert(0x80u8 | ((v >> 6) & 0x3F) as u8 >= 0x80) by (bit_vector);
        assert(0x80u8 | ((v >> 12) & 0x3F) as u8 >= 0x80) by (bit_vector);
        assert(lower_letter(c) == c);
        assert(encode_scalar(v) =~= encode_scalar(v).map_values(|b: u8| text::ascii_lower(b)));
    }
}

/// Folding the bytes of a string is folding its characters.
proof fn lemma_lower_bytes(s: Seq<char>)
    ensures
        text::ascii_lower_bytes(s) == encode_utf8(lowered(s)),
    decreases s.len(),
{
    if s.len() == 0 {
        assert(text::ascii_lower_bytes(s) =~= encode_utf8(lowered(s)));
    } else {
        lemma_lower_scalar(s[0]);
        lemma_lower_bytes(s.drop_first());
        assert(lowered(s).drop_first() =~= lowered(s.drop_first()));
        assert(text::ascii_lower_bytes(s) =~= encode_utf8(lowered(s)));
    }
}

proof fn lemma_encode_concat(a: Seq<char>, b: Seq<char>)
    ensures
        encode_utf8(a + b) == encode_utf8(a) + encode_utf8(b),
    decreases a.len(),
{
    if a.len() == 0 {
        assert(a + b =~= b);
        assert(encode_utf8(a) + encode_utf8(b) =~= encode_utf8(b));
    } else {
        assert((a + b).drop_first() =~= a.drop_first() + b);
        lemma_encode_concat(a.drop_first(), b);
        assert(encode_utf8(a + b) =~= encode_utf8(a) + encode_utf8(b));
    }
}

proof fn lemma_same_letters(a: Seq<char>, b: Seq<char>)
    ensures
        same_letters(a, b) <==> lowered(a) == lowered(b),
        same_letters(a, b) <==> text::ascii_lower_bytes(a) == text::ascii_lower_bytes(b),
{
    lemma_lower_bytes(a);
    lemma_lower_bytes(b);
    encode_utf8_decode_utf8(lowered(a));
    encode_utf8_decode_utf8(lowered(b));
    if same_letters(a, b) {
        assert(lowered(a) =~= lowered(b));
    }
    if lowered(a) == lowered(b) {
        assert(lowered(a).len() == a.len() && lowered(b).len() == b.len());
        assert forall|i: int| 0 <= i < a.len() implies #[trigger] lower_letter(a[i])
            == lower_letter(b[i]) by {
            assert(lowered(a)[i] == lower_letter(a[i]));
            assert(lowered(b)[i] == lower_letter(b[i]));
        }
    }
}

/// The encoding of a mark is one byte, and no other character starts with it.
proof fn lemma_mark_byte(c: char)
    ensures
        encode_scalar(c as u32).len() > 0,
        is_mark(lower_letter(c)) <==> lookup::separates(encode_scalar(lower_letter(c) as u32)[0]),
        is_mark(lower_letter(c)) <==> is_mark(c),
        encode_scalar(lower_letter(c) as u32).len() > 0,
{
    let v = lower_letter(c) as u32;
    char_is_scalar(c);
    char_is_scalar(lower_letter(c));
    assert(v <= 0x7f ==> (v & 0x7f) as u8 == v) by (bit_vector);
    assert(0xC0u8 | ((v >> 6) & 0x1F) as u8 >= 0x80) by (bit_vector);
    assert(0xE0u8 | ((v >> 12) & 0x0F) as u8 >= 0x80) by (bit_vector);
    assert(0xF0u8 | ((v >> 18) & 0x7) as u8 >= 0x80) by (bit_vector);
}

proof fn lemma_extends(short: Seq<char>, long: Seq<char>)
    ensures
        extends(long, short) <==> lookup::is_clean_prefix(
            text::ascii_lower_bytes(short),
            text::ascii_lower_bytes(long),
        ),
{
    let a = lowered(short);
    let b = lowered(long);
    let x = encode_utf8(a);
    let y = encode_utf8(b);
    lemma_lower_bytes(short);
    lemma_lower_bytes(long);
    if extends(long, short) {
        let n = short.len() as int;
        lemma_same_letters(short, long.take(n));
        let rest = b.skip(n);
        assert(b.take(n) =~= lowered(long.take(n)));
        assert(b =~= a + rest);
        lemma_encode_concat(a, rest);
        lemma_mark_byte(long[n]);
        assert(rest[0] == lower_letter(long[n]));
        assert(encode_utf8(rest)[0] == encode_scalar(rest[0] as u32)[0]);
        assert(y[x.len() as int] == encode_utf8(rest)[0]);
        assert(x =~= y.subrange(0, x.len() as int));
    }
    if lookup::is_clean_prefix(x, y) {
        let n = x.len() as int;
        encode_utf8_valid_utf8(b);
        encode_utf8_decode_utf8(a);
        encode_utf8_decode_utf8(b);
        assert(!is_continuation_byte(y[n])) by {
            let byte = y[n];
            assert(byte < 0x80 ==> !(0x80 <= byte <= 0xbf)) by (bit_vector);
        }
        is_char_boundary_iff_not_is_continuation_byte(y, n);
        decode_utf8_split(y, n);
        valid_utf8_split(y, n);
        assert(y.subrange(0, n) =~= x);
        let tail = y.subrange(n, y.len() as int);
        let rest = decode_utf8(tail);
        assert(b == a + rest);
        decode_utf8_encode_utf8(tail);
        assert(tail.len() > 0);
        assert(rest.len() > 0) by {
            if rest.len() == 0 {
                assert(encode_utf8(rest).len() == 0);
            }
        }
        assert(b.len() == long.len() && a.len() == short.len());
        let k = short.len() as int;
        lemma_mark_byte(long[k]);
        assert(rest[0] == b[k]);
        assert(b[k] == lower_letter(long[k]));
        assert(encode_utf8(rest)[0] == encode_scalar(rest[0] as u32)[0]);
        assert(tail[0] == y[n]);
        assert(lowered(long.take(k)) =~= b.take(k));
        assert(b.take(k) =~= a);
        lemma_same_letters(short, long.take(k));
    }
}

/// Of two names that a third extends, the one with more characters has more bytes.
proof fn lemma_longer(long: Seq<char>, a: Seq<char>, b: Seq<char>)
    requires
        extends(long, a),
        extends(long, b),
    ensures
        a.len() < b.len() <==> text::ascii_lower_bytes(a).len() < text::ascii_lower_bytes(b).len(),
{
    if a.len() > b.len() {
        lemma_longer_one_way(long, b, a);
    } else if a.len() < b.len() {
        lemma_longer_one_way(long, a, b);
    } else {
        lemma_same_letters(a, long.take(a.len() as int));
        lemma_same_letters(b, long.take(b.len() as int));
    }
}

proof fn lemma_longer_one_way(long: Seq<char>, a: Seq<char>, b: Seq<char>)
    requires
        extends(long, a),
        extends(long, b),
        a.len() < b.len(),
    ensures
        text::ascii_lower_bytes(a).len() < text::ascii_lower_bytes(b).len(),
{
    let n = a.len() as int;
    let x = lowered(a);
    let y = lowered(b);
    lemma_lower_bytes(a);
    lemma_lower_bytes(b);
    lemma_same_letters(a, long.take(n));
    lemma_same_letters(b, long.take(b.len() as int));
    assert(y.take(n) =~= lowered(long.take(b.len() as int)).take(n));
    assert(lowered(long.take(b.len() as int)).take(n) =~= lowered(long.take(n)));
    let rest = y.skip(n);
    assert(y =~= x + rest);
    lemma_encode_concat(x, rest);
    lemma_mark_byte(b[n]);
    assert(rest[0] == lower_letter(b[n]));
}

/// Which entry stands for a slug, told by the characters of keys and slug: that of
/// the slug itself; else the first one with the same name, whatever the case of its
/// letters; else the first one with the longest name that the slug extends by a
/// mark and anything behind it. Without such an entry there is none.
pub proof fn law_entry_by_characters<V>(
    entries: Seq<(Seq<char>, V)>,
    slug: Seq<char>,
    names: Seq<Seq<char>>,
    name: Seq<char>,
)
    requires
        has_name(slug, name),
        names.len() == entries.len(),
        forall|j: int| 0 <= j < entries.len() ==> has_name(#[trigger] entries[j].0, names[j]),
    ensures
        match lookup::position_of(entries, slug) {
            Some(i) => 0 <= i < entries.len() && if exists|j: int|
                0 <= j < entries.len() && (#[trigger] entries[j]).0 == slug {
                entries[i].0 == slug && forall|j: int|
                    0 <= j < i ==> (#[trigger] entries[j]).0 != slug
            } else if exists|j: int| 0 <= j < names.len() && same_letters(#[trigger] names[j], name) {
                same_letters(names[i], name) && forall|j: int|
                    0 <= j < i ==> !same_letters(#[trigger] names[j], name)
            } else {
                extends(name, names[i]) && forall|j: int|
                    0 <= j < names.len() && extends(name, #[trigger] names[j]) ==> names[j].len()
                        < names[i].len() || names[j].len() == names[i].len() && i <= j
            },
            None => forall|j: int|
                0 <= j < entries.len() ==> (#[trigger] entries[j]).0 != slug && !same_letters(
                    names[j],
                    name,
                ) && !extends(name, names[j]),
        },
{
    let target = lookup::folded(slug);
    law_has_its_name(slug, name);
    assert forall|j: int| 0 <= j < entries.len() implies {
        let folded = lookup::folded((#[trigger] entries[j]).0);
        &&& folded == text::ascii_lower_bytes(names[j])
        &&& folded == target <==> same_letters(names[j], name)
        &&& lookup::is_clean_prefix(folded, target) <==> extends(name, names[j])
    } by {
        law_has_its_name(entries[j].0, names[j]);
        lemma_same_letters(names[j], name);
        lemma_extends(names[j], name);
    }
    lookup::lemma_positions(entries, slug, target);
    match lookup::position_of(entries, slug) {
        Some(i) => {
            if lookup::exact_position(entries, slug) is Some {
                assert(entries[i].0 == slug);
            } else if lookup::name_position(entries, target) is Some {
                assert(same_letters(names[i], name));
                assert forall|j: int| 0 <= j < i implies !same_letters(#[trigger] names[j], name) by {
                    assert(lookup::folded(entries[j].0) != target);
                }
            } else {
                assert forall|j: int| 0 <= j < names.len() implies !same_letters(
                    #[trigger] names[j],
                    name,
                ) by {
                    assert(lookup::folded(entries[j].0) != target);
                }
                assert(extends(name, names[i]));
                assert forall|j: int|
                    0 <= j < names.len() && extends(name, #[trigger] names[j]) implies names[j].len()
                    < names[i].len() || names[j].len() == names[i].len() && i <= j by {
                    assert(lookup::is_clean_prefix(lookup::folded(entries[j].0), target));
                    lemma_longer(name, names[j], names[i]);
                    lemma_longer(name, names[i], names[j]);
                }
            }
        },
        None => {
            assert forall|j: int| 0 <= j < entries.len() implies (#[trigger] entries[j]).0 != slug
                && !same_letters(names[j], name) && !extends(name, names[j]) by {
                assert(lookup::folded(entries[j].0) != target);
            }
        },
    }
}

/// A slug that consists of the name of an entry, whatever the case of its letters,
/// a `-`, `.`, `_` or `/`, and any further text is found.
pub proof fn law_suffixed_slug_found<V>(
    entries: Seq<(Seq<char>, V)>,
    i: int,
    entry_name: Seq<char>,
    slug: Seq<char>,
    written: Seq<char>,
    mark: char,
    suffix: Seq<char>,
)
    requires
        0 <= i < entries.len(),
        has_name(entries[i].0, entry_name),
        has_name(slug, written.push(mark) + suffix),
        same_letters(entry_name, written),
        mark == '-' || mark == '.' || mark == '_' || mark == '/',
    ensures
        lookup::position_of(entries, slug) is Some,
{
    let name = written.push(mark) + suffix;
    let names = Seq::new(entries.len(), |j: int| lookup::name_part_of(entries[j].0));
    assert forall|j: int| 0 <= j < entries.len() implies has_name(
        #[trigger] entries[j].0,
        names[j],
    ) by {
        law_has_its_name(entries[j].0, names[j]);
    }
    law_has_its_name(entries[i].0, entry_name);
    assert(names[i] == entry_name);
    let n = entry_name.len() as int;
    assert(name.take(n) =~= written);
    assert(name[n] == mark);
    assert(extends(name, entry_name));
    law_entry_by_characters(entries, slug, names, name);
}

/// What a lookup gives is the entry that stands for the slug, whole.
pub proof fn law_lookup_gives_the_entry(
    catalog: Seq<(Seq<char>, ModelsDevEntryView)>,
    slug: Seq<char>,
    i: int,
)
    ensures
        lookup::position_of(catalog, slug) is None <==> lookup::lookup(catalog, slug) is None,
        lookup::position_of(catalog, slug) == Some(i) ==> lookup::lookup(catalog, slug) == Some(
            catalog[i].1,
        ),
{
}

/// The bytes that separate are the marks.
pub proof fn law_separators_are_marks(byte: u8)
    ensures
        lookup::separates(byte) <==> byte == '-' as u8 || byte == '.' as u8 || byte == '_' as u8
            || byte == '/' as u8,
{
}

} // verus!
