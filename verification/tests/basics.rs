use recodex::clock::{Timestamp, MAX_SECS, MIN_SECS};
use recodex::json::{Json, JsonNumber};
use recodex::string_map::StringMap;
use recodex::text::{
    bytes_eq, chars_of, push_decimal, starts_with, str_eq, to_ascii_lowercase, trim, white_space,
};

#[test]
fn white_space_is_that_of_unicode() {
    for code in 0..=0x10ffff {
        if let Some(c) = char::from_u32(code) {
            assert_eq!(white_space(c), c.is_whitespace(), "{c:?}");
        }
    }
}

#[test]
fn trimming_takes_both_ends() {
    for s in ["", " ", "a", " a b ", "\u{2003}é\u{85}", "\t\n[DONE]\r\n", "世 界"] {
        assert_eq!(trim(s), s.trim());
    }
}

#[test]
fn decimals_have_no_leading_zeros() {
    for n in [0, 7, 10, 99, 100, 1234567890, usize::MAX] {
        let mut out = "tool_".to_string();
        push_decimal(&mut out, n);
        assert_eq!(out, format!("tool_{n}"));
    }
}

#[test]
fn strings_and_bytes_are_compared_whole() {
    assert!(str_eq("añ", "añ"));
    assert!(!str_eq("a", "ab"));
    assert!(!str_eq("ab", "aB"));
    assert!(bytes_eq(b"", b""));
    assert!(!bytes_eq(b"a", b"b"));
    assert!(starts_with(b"abc", b"ab"));
    assert!(starts_with(b"abc", b""));
    assert!(!starts_with(b"ab", b"abc"));
    assert!(!starts_with(b"abc", b"b"));
    assert_eq!(chars_of("aé🦀"), vec!['a', 'é', '🦀']);
    assert_eq!(to_ascii_lowercase("AbÉ-Z"), "abÉ-z".as_bytes());
}

#[test]
fn a_map_keeps_its_order_and_replaces_in_place() {
    let mut map: StringMap<u8> = StringMap::new();
    assert!(map.is_empty());
    map.insert("b".to_string(), 1);
    map.insert("a".to_string(), 2);
    map.insert("b".to_string(), 3);
    assert_eq!(map.len(), 2);
    assert_eq!(map.get("b"), Some(&3));
    assert_eq!(map.get("c"), None);
    assert_eq!(map.entry_at(0), ("b", &3));
    assert_eq!(map.entry_at(1), ("a", &2));
}

#[test]
fn json_members_are_found_by_name() {
    let value = Json::Object(vec![
        ("s".to_string(), Json::Str("x".to_string())),
        ("l".to_string(), Json::Array(vec![Json::Null, Json::Bool(true)])),
        ("n".to_string(), Json::Number(JsonNumber::PosInt(1))),
    ]);
    assert_eq!(value.get_str("s"), Some("x"));
    assert_eq!(value.get_str("n"), None);
    assert_eq!(value.get_array("l").map(|items| items.len()), Some(2));
    assert!(value.get_array("s").is_none());
    assert!(value.get("missing").is_none());
    assert!(Json::Null.get("s").is_none());
    let copy = value.clone();
    assert!(matches!(copy.get("n"), Some(Json::Number(JsonNumber::PosInt(1)))));
}

#[test]
fn timestamps_are_those_that_the_calendar_has() {
    let cases = [
        (0, 0),
        (MIN_SECS, 0),
        (MIN_SECS - 1, 0),
        (MAX_SECS, 999_999_999),
        (MAX_SECS + 1, 0),
        (i64::MIN, 0),
        (i64::MAX, 0),
        (59, 1_000_000_000),
        (59, 1_999_999_999),
        (59, 2_000_000_000),
        (60, 1_000_000_000),
        (-1, 1_500_000_000),
        (-2, 1_500_000_000),
        (0, u32::MAX),
        (MAX_SECS, 1_999_999_999),
    ];
    for (secs, nanos) in cases {
        let expected = chrono::DateTime::from_timestamp(secs, nanos).is_some();
        assert_eq!(Timestamp::new(secs, nanos).is_some(), expected, "{secs} {nanos}");
    }
}

#[test]
fn seconds_between_instants_round_toward_zero() {
    let at = |secs: i64, nanos: u32| Timestamp::new(secs, nanos).unwrap();
    assert_eq!(at(10, 0).seconds_since(&at(7, 0)), 3);
    assert_eq!(at(10, 0).seconds_since(&at(7, 1)), 2);
    assert_eq!(at(7, 1).seconds_since(&at(10, 0)), -2);
    assert_eq!(at(7, 0).seconds_since(&at(10, 0)), -3);
    assert_eq!(at(0, 0).seconds_since(&at(-1, 500_000_000)), 0);
    assert_eq!(
        at(MAX_SECS, 0).seconds_since(&at(MIN_SECS, 0)),
        MAX_SECS - MIN_SECS
    );
    // From within the leap second after 59 to the full minute.
    assert_eq!(at(60, 0).seconds_since(&at(59, 1_000_000_000)), 1);
    assert_eq!(at(59, 1_500_000_000).seconds_since(&at(59, 0)), 1);
    assert_eq!(at(59, 1_500_000_000).seconds_since(&at(60, 0)), 0);
    assert_eq!(at(59, 1_000_000_000).seconds_since(&at(120, 0)), -61);
}

#[test]
fn the_clock_agrees_with_the_system() {
    let before = std::time::SystemTime::now()
        .duration_since(std::time::UNIX_EPOCH)
        .unwrap()
        .as_secs() as i64;
    let now = Timestamp::now();
    assert!(now.secs() >= before && now.secs() <= before + 60);
    assert!(now.nanos() < 1_000_000_000);
    assert_eq!(Timestamp::new(now.secs(), now.nanos()), Some(now));
}
