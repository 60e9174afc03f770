use litemusicdl::domain::{de_u64_loose, quality_from_url, Track};
use litemusicdl::json::{parse_json, set_field, text_value, Json, Number};
use litemusicdl::order::{arrange, sort_alphabetical, sort_descending};
use litemusicdl::shelf::Shelf;
use litemusicdl::text;

#[test]
fn quality_of_addresses() {
    assert_eq!(quality_from_url("http://x/a.FLAC"), "无损");
    assert_eq!(quality_from_url("http://x/LossLess/a"), "无损");
    assert_eq!(quality_from_url("http://x/320/a.mp3"), "320K");
    assert_eq!(quality_from_url("http://x/128/a.mp3"), "128K");
    assert_eq!(quality_from_url("http://x/120/a.mp3"), "128K");
    assert_eq!(quality_from_url("http://x/a.mp3"), "");
}

#[test]
fn loose_numbers() {
    assert_eq!(de_u64_loose(&Json::Number(Number::Unsigned(7))), Some(7));
    assert_eq!(de_u64_loose(&Json::Number(Number::Negative(-7))), Some(0));
    assert_eq!(de_u64_loose(&Json::Text(" 42 ".into())), Some(42));
    assert_eq!(de_u64_loose(&Json::Text("many".into())), Some(0));
    assert_eq!(de_u64_loose(&Json::Null), Some(0));
    assert_eq!(de_u64_loose(&Json::Bool(true)), None);
    assert_eq!(de_u64_loose(&Json::Number(Number::Double(2.5f64.to_bits()))), None);
    assert_eq!(de_u64_loose(&Json::List(vec![])), None);
}

#[test]
fn documents_are_parsed() {
    let value = parse_json(br#"{"a":[1,-2,2.5,"x",null,true],"b":{"c":"d"}}"#).unwrap();
    let list = value.get("a").unwrap().as_array().unwrap();
    assert_eq!(list.len(), 6);
    assert!(matches!(list[0], Json::Number(Number::Unsigned(1))));
    assert!(matches!(list[1], Json::Number(Number::Negative(-2))));
    assert!(matches!(list[2], Json::Number(Number::Double(bits)) if bits == 2.5f64.to_bits()));
    assert_eq!(list[3].as_str(), Some("x"));
    assert!(matches!(list[4], Json::Null));
    assert!(matches!(list[5], Json::Bool(true)));
    assert_eq!(value.get("b").unwrap().get("c").unwrap().as_str(), Some("d"));
    assert!(value.get("z").is_none());
}

#[test]
fn broken_documents_are_refused() {
    let message = parse_json(b"{").unwrap_err();
    assert_eq!(message, "EOF while parsing an object at line 1 column 1");
}

#[test]
fn repeated_fields_count_by_the_last() {
    let value = parse_json(br#"{"NAME":"old","NAME":"new"}"#).unwrap();
    assert_eq!(value.get("NAME").unwrap().as_str(), Some("new"));
    let twice = Json::Record(vec![("a".into(), text_value("1")), ("a".into(), text_value("2"))]);
    assert_eq!(twice.get("a").unwrap().as_str(), Some("2"));
}

#[test]
fn fields_are_set() {
    let value = parse_json(br#"{"a":"1","b":"2"}"#).unwrap();
    let value = set_field(value, "a", text_value("3"));
    assert_eq!(value.get("a").unwrap().as_str(), Some("3"));
    assert_eq!(value.get("b").unwrap().as_str(), Some("2"));
    assert!(set_field(Json::Null, "a", text_value("3")).get("a").is_none());
}

#[test]
fn texts_are_trimmed_and_searched() {
    assert_eq!(text::trim(" \t词 \u{3000}\n"), "词");
    assert!(text::blank(" \u{a0}\n"));
    assert!(!text::blank(" x "));
    assert!(text::contains("abcabc", "cab"));
    assert!(!text::contains("abc", "abcd"));
    assert_eq!(text::split_once("a - b - c", " - "), Some(("a", "b - c")));
    assert_eq!(text::split_once("abc", " - "), None);
    assert_eq!(text::head("a?b?c", "?"), "a");
    assert_eq!(text::tail("a.b.c", "."), "c");
    assert_eq!(text::strip_start("MUSIC_MUSIC_1", "MUSIC_"), "1");
    assert_eq!(text::strip_end("1.5MBMB", "MB"), "1.5");
    assert!(text::same_ignoring_case("LrC", "lrc"));
}

#[test]
fn numbers_are_read_and_written() {
    assert_eq!(text::parse_number("+18446744073709551615"), Some(u64::MAX));
    assert_eq!(text::parse_number("18446744073709551616"), None);
    assert_eq!(text::parse_number(""), None);
    assert_eq!(text::parse_number("+"), None);
    assert_eq!(text::parse_number("-1"), None);
    assert_eq!(text::parse_number(" 1"), None);
    assert_eq!(text::number_text(u64::MAX), "18446744073709551615");
    assert_eq!(text::parse_number(&text::number_text(9070)), Some(9070));
    assert_eq!(text::hex_text(0xbeef, 8), "0000beef");
}

#[test]
fn texts_are_ordered() {
    assert!(text::ordered("a", "b"));
    assert!(text::ordered("a", "aa"));
    assert!(text::ordered("", ""));
    assert!(!text::ordered("b", "aa"));
    assert!(text::ordered("z", "词"));
}

#[test]
fn sorting_is_stable() {
    assert_eq!(sort_descending(&vec![1, 3, 3, 2, 3]), vec![1, 2, 4, 3, 0]);
    let names: Vec<String> = vec!["b".into(), "a".into(), "b".into(), "".into()];
    assert_eq!(sort_alphabetical(&names), vec![3, 1, 0, 2]);
    assert_eq!(arrange(vec!['x', 'y', 'z'], &vec![2, 0, 1]), vec!['z', 'x', 'y']);
}

#[test]
fn shelves_keep_things_under_names() {
    let mut shelf: Shelf<u32> = Shelf::new();
    let first = shelf.register(10);
    let second = shelf.register(20);
    assert_eq!((first.as_str(), second.as_str()), ("1", "2"));
    assert_eq!(shelf.get("1"), Some(&10));
    assert_eq!(shelf.get("2"), Some(&20));
    assert_eq!(shelf.get("01"), None);
    shelf.insert("2", 21);
    assert_eq!(shelf.get("2"), Some(&21));
    assert_eq!(shelf.remove("2"), Some(21));
    assert_eq!(shelf.remove("2"), None);
    shelf.clear();
    assert_eq!(shelf.get("1"), None);
    assert_eq!(shelf.register(30), "3");
}

#[test]
fn tracks_are_copied() {
    let track = Track {
        id: "qq:1".into(),
        source: "QQMusicClient".into(),
        title: "晴天".into(),
        artist: "a".into(),
        album: "b".into(),
        artwork_url: "c".into(),
        audio_url: "d".into(),
        duration_ms: 5,
        format: Some("MP3".into()),
        quality: None,
        adapter_payload: Some(Json::List(vec![text_value("x")])),
    };
    let copy = track.clone();
    assert_eq!(copy.title, "晴天");
    assert_eq!(copy.format.as_deref(), Some("MP3"));
    assert_eq!(copy.quality, None);
    assert_eq!(copy.adapter_payload.unwrap().as_array().unwrap()[0].as_str(), Some("x"));
}
