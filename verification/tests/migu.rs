use litemusicdl::download::file_extension;
use litemusicdl::json::{parse_json, Number};
use litemusicdl::playback::stream_headers;
use litemusicdl::sources::migu::{
    candidates_of, decode_response, decode_signed, duration_seconds, extension_of_tone, listen_address, listen_request, listen_target,
    lyrics_request, lyrics_text, migu_size, next_format, no_stream, order_candidates, search_request, search_songs,
    track_from_song, Amount, MiguStream, MIGU_UA,
};
use reqwest::header::{HeaderMap, HeaderValue};

const KEY: &[u8] = b"Jk8qzuePiJ1qE3mDYhLQ3T73DtDoAhLP";

fn masked(plain: &[u8], seed: u8) -> Vec<u8> {
    let mut raw = vec![0xab, 0xcd, 0x01, seed];
    for (i, byte) in plain.iter().enumerate() {
        raw.push(byte.wrapping_add(KEY[i % KEY.len()]).wrapping_sub(seed));
    }
    raw
}

fn signed() -> HeaderMap {
    let mut headers = HeaderMap::new();
    headers.insert("Signature", HeaderValue::from_static("1"));
    headers
}

#[test]
fn migu_unmasks_replies() {
    let plain = br#"{"data":{"url":"http://x/some/long/enough/address.flac"}}"#;
    for seed in [0u8, 7, 200, 255] {
        let raw = masked(plain, seed);
        let value = decode_response(&HeaderMap::new(), &raw).unwrap();
        assert_eq!(listen_address(Some(&value)).as_deref(), Some("http://x/some/long/enough/address.flac"));
    }
    let mut raw = masked(plain, 9);
    raw[0] = 0;
    assert!(decode_response(&signed(), &raw).is_ok());
    assert!(decode_response(&HeaderMap::new(), &raw).is_err());
    assert!(decode_response(&HeaderMap::new(), plain).is_ok());
    assert!(decode_signed(Some("1"), &raw).is_ok());
    assert!(decode_signed(Some("0"), &raw).is_err());
    assert!(decode_signed(None, plain).is_ok());
}

#[test]
fn migu_refuses_broken_replies() {
    assert_eq!(decode_response(&signed(), b"ab").unwrap_err(), "咪咕响应过短");
    assert_eq!(decode_response(&HeaderMap::new(), &[0xab, 0xcd, 0x01]).unwrap_err(), "咪咕响应过短");
    assert_eq!(
        decode_response(&HeaderMap::new(), b"").unwrap_err(),
        "咪咕数据解析失败: EOF while parsing a value at line 1 column 0"
    );
}

#[test]
fn migu_searches() {
    let request = search_request("晴天", 5, 2);
    assert_eq!(request.query[0], ("text".to_string(), "晴天".to_string()));
    assert_eq!(request.query[1], ("pageNo".to_string(), "2".to_string()));
    assert_eq!(request.query[2], ("pageSize".to_string(), "5".to_string()));
    assert_eq!(
        request.query[5].1,
        r#"{"song":1,"album":0,"singer":0,"tagSong":1,"mvSong":0,"bestShow":1}"#
    );
    assert_eq!(request.headers.len(), 8);
    let reply = parse_json(br#"{"songResultData":{"result":[{"name":"a"},{"name":"b"},{"name":"c"}]}}"#).unwrap();
    let songs = search_songs(&reply, 2);
    assert_eq!(songs.len(), 2);
    assert_eq!(songs[1].get("name").unwrap().as_str(), Some("b"));
    assert_eq!(search_songs(&reply, 9).len(), 3);
    assert!(search_songs(&parse_json(b"[]").unwrap(), 9).is_empty());
}

#[test]
fn migu_orders_formats_by_size() {
    let song = parse_json(
        br#"{"copyrightId":"c","contentId":"i",
            "rateFormats":[{"formatType":"PQ","resourceType":"2","size":"3.5MB"},{"formatType":"Z3D","size":"99"}],
            "newRateFormats":[{"formatType":"SQ","resourceType":"E","androidSize":30}],
            "audioFormats":[{"formatType":"HQ","isize":" 8.0 MB"},{"resourceType":"x"}]}"#,
    )
    .unwrap();
    let formats = candidates_of(&song).unwrap();
    assert_eq!(formats.len(), 4);
    assert!(matches!(migu_size(&formats[0]), Amount::Text(text) if text == "3.5"));
    assert!(matches!(migu_size(&formats[1]), Amount::Number(Number::Unsigned(30))));
    assert!(matches!(migu_size(&formats[2]), Amount::Text(text) if text == "8.0"));
    assert!(matches!(migu_size(&formats[3]), Amount::Missing));
    let sizes: Vec<u64> = [3.5f64, 30.0, 8.0, -0.5].iter().map(|size| size.to_bits()).collect();
    let ordered = order_candidates(&formats, &sizes);
    let tones: Vec<Option<&str>> =
        ordered.iter().map(|format| format.get("formatType").and_then(|tone| tone.as_str())).collect();
    assert_eq!(tones, vec![Some("SQ"), Some("HQ"), Some("PQ"), None]);
    assert_eq!(listen_target(&ordered[0]), Some(("SQ".into(), "E".into())));
    assert_eq!(listen_target(&ordered[1]), None);
    assert_eq!(next_format(&ordered, 0), Some((0, "SQ".into(), "E".into())));
    assert_eq!(next_format(&ordered, 1), Some((2, "PQ".into(), "2".into())));
    assert_eq!(next_format(&ordered, 3), None);
    let request = listen_request(&song, "SQ", "E");
    assert_eq!(request.query[0], ("contentId".to_string(), "i".to_string()));
    assert_eq!(request.query[1], ("copyrightId".to_string(), "c".to_string()));
    assert_eq!(request.query[4], ("toneFlag".to_string(), "SQ".to_string()));
    assert_eq!(request.headers[10], ("signature".to_string(), "1".to_string()));
}

#[test]
fn migu_keeps_the_order_of_equal_sizes() {
    let formats = vec![parse_json(b"1").unwrap(), parse_json(b"2").unwrap(), parse_json(b"3").unwrap()];
    let nan = f64::NAN.to_bits();
    let ordered = order_candidates(&formats, &vec![0.0f64.to_bits(), (-0.0f64).to_bits(), nan]);
    let numbers: Vec<String> = ordered.iter().map(|number| format!("{number:?}")).collect();
    assert_eq!(numbers, vec!["Number(Unsigned(3))", "Number(Unsigned(1))", "Number(Unsigned(2))"]);
    let same = order_candidates(&formats, &vec![5, 5, 5]);
    assert_eq!(format!("{same:?}"), format!("{formats:?}"));
}

#[test]
fn migu_needs_rates_and_copyright() {
    assert!(candidates_of(&parse_json(br#"{"rateFormats":[]}"#).unwrap()).is_none());
    assert!(candidates_of(&parse_json(br#"{"copyrightId":"c"}"#).unwrap()).is_none());
    assert!(candidates_of(&parse_json(br#"{"copyrightId":"c","rateFormats":{}}"#).unwrap()).is_none());
    assert_eq!(candidates_of(&parse_json(br#"{"copyrightId":"c","rateFormats":[]}"#).unwrap()).unwrap().len(), 0);
}

#[test]
fn migu_reads_replies_of_streams() {
    let reply = parse_json(br#"{"data":{"url":"http://x","song":{"duration":269}}}"#).unwrap();
    assert_eq!(listen_address(Some(&reply)).as_deref(), Some("http://x"));
    assert!(matches!(duration_seconds(Some(&reply)), Amount::Number(Number::Unsigned(269))));
    let reply = parse_json(br#"{"data":{"song":{"duration":"269.5"}}}"#).unwrap();
    assert_eq!(listen_address(Some(&reply)), None);
    assert!(matches!(duration_seconds(Some(&reply)), Amount::Text(text) if text == "269.5"));
    assert!(matches!(duration_seconds(None), Amount::Missing));
}

#[test]
fn migu_songs_become_tracks() {
    let song = parse_json(
        br#"{"contentId":"i","name":"n","albumName":"al","lyricUrl":"http://l",
            "singers":[{"name":"a"},{"x":1},{"name":"b"}],"imgItems":[{"img":"1"},{"url":"2"}]}"#,
    )
    .unwrap();
    let stream = MiguStream { url: "http://x".into(), tone: "ZQ24".into(), seconds: 61 };
    let track = track_from_song(&song, stream);
    assert_eq!(track.id, "migu:i");
    assert_eq!(track.artist, "a / b");
    assert_eq!(track.artwork_url, "2");
    assert_eq!(track.duration_ms, 61_000);
    assert_eq!(track.format.as_deref(), Some("FLAC"));
    assert_eq!(track.quality.as_deref(), Some("ZQ24"));
    let payload = track.adapter_payload.as_ref().unwrap();
    assert_eq!(payload.get("extension").unwrap().as_str(), Some("flac"));
    let request = lyrics_request(&track).unwrap();
    assert_eq!(request.url, "http://l");
    assert_eq!(request.headers[0], ("User-Agent".to_string(), MIGU_UA.to_string()));
    let silent = track_from_song(&parse_json(b"{}").unwrap(), no_stream());
    assert_eq!(silent.quality.as_deref(), Some(""));
    assert_eq!(silent.format.as_deref(), Some("MP3"));
    assert!(lyrics_request(&silent).is_none());
    let toneless = MiguStream { url: "http://x/320/a".into(), tone: "".into(), seconds: 0 };
    assert_eq!(track_from_song(&song, toneless).quality.as_deref(), Some("320K"));
    assert_eq!(extension_of_tone("HQ"), "mp3");
    assert_eq!(lyrics_text(Some("词".into())).as_deref(), Some("词"));
    assert_eq!(lyrics_text(Some(" ".into())), None);
}

#[test]
fn migu_streams_are_fetched_with_the_headers_of_the_source() {
    let stream = MiguStream { url: "http://x".into(), tone: "SQ".into(), seconds: 1 };
    let track = track_from_song(&parse_json(b"{}").unwrap(), stream);
    assert_eq!(stream_headers(&track), vec![("User-Agent".to_string(), MIGU_UA.to_string())]);
    assert_eq!(file_extension(&track), "flac");
}
