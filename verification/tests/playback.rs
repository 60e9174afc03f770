use litemusicdl::artwork::LocalArtwork;
use litemusicdl::domain::Track;
use litemusicdl::json::parse_json;
use litemusicdl::playback::{
    artwork_reply, bare_reply, file_reply, local_range, opening_range, playback, prepare_playback, range_length,
    requested_local_range, source_reply, stream_headers, stream_reply, token_of, unsatisfied_reply, Playback,
};
use litemusicdl::shelf::Shelf;
use reqwest::header::{HeaderMap, HeaderValue, CONTENT_RANGE, CONTENT_TYPE};

fn track(payload: Option<&str>) -> Track {
    Track {
        id: "qq:1".into(),
        source: "QQMusicClient".into(),
        title: "t".into(),
        artist: "a".into(),
        album: String::new(),
        artwork_url: String::new(),
        audio_url: "https://x/a.flac".into(),
        duration_ms: 0,
        format: Some("FLAC".into()),
        quality: None,
        adapter_payload: payload.map(|text| parse_json(text.as_bytes()).unwrap()),
    }
}

fn range(text: &str, total: u64) -> Option<(u64, u64)> {
    requested_local_range(Some(&HeaderValue::from_str(text).unwrap()), total)
}

#[test]
fn ranges_are_granted() {
    assert_eq!(local_range(Some(" bytes=2-5,7-8"), 10), Some((2, 5)));
    assert_eq!(local_range(Some("bytes=-3"), 10), Some((7, 9)));
    assert_eq!(local_range(Some("bytes=10-"), 10), None);
    assert_eq!(local_range(None, 10), Some((0, 9)));
    assert_eq!(requested_local_range(None, 0), None);
    assert_eq!(requested_local_range(None, 10), Some((0, 9)));
    assert_eq!(requested_local_range(None, 65_536), Some((0, 65_535)));
    assert_eq!(requested_local_range(None, 100_000), Some((0, 65_535)));
    assert_eq!(range("bytes=2-5", 10), Some((2, 5)));
    assert_eq!(range("  bytes=2-5,7-8 ", 10), Some((2, 5)));
    assert_eq!(range("bytes=2-", 10), Some((2, 9)));
    assert_eq!(range("bytes=2-99", 10), Some((2, 9)));
    assert_eq!(range("bytes=5-2", 10), Some((5, 5)));
    assert_eq!(range("bytes=5-x", 10), Some((5, 9)));
    assert_eq!(range("bytes=-3", 10), Some((7, 9)));
    assert_eq!(range("bytes=-30", 10), Some((0, 9)));
    assert_eq!(range("bytes=-0", 10), Some((10, 9)));
    assert_eq!(range("bytes=-", 10), None);
    assert_eq!(range("bytes=x-3", 10), None);
    assert_eq!(range("bytes=10-", 10), None);
    assert_eq!(range("bytes=7", 10), Some((0, 9)));
    assert_eq!(range("items=1-2", 10), Some((0, 9)));
    assert_eq!(range_length(2, 5), 4);
    assert_eq!(range_length(10, 9), 0);
    let odd = HeaderValue::from_bytes(b"bytes=1-2\xff").unwrap();
    assert_eq!(requested_local_range(Some(&odd), 10), Some((0, 9)));
}

#[test]
fn artwork_is_answered() {
    let mut shelf = Shelf::new();
    let token = shelf.register(LocalArtwork { content_type: "image/png".into(), bytes: vec![1, 2, 3] });
    let reply = artwork_reply(&shelf, &format!("/{token}"));
    assert_eq!(reply.status, 200);
    assert_eq!(reply.headers[0], ("Content-Type".to_string(), "image/png".to_string()));
    assert_eq!(reply.headers[1], ("Content-Length".to_string(), "3".to_string()));
    assert_eq!(reply.headers[2], ("Cache-Control".to_string(), "no-store".to_string()));
    assert_eq!(reply.body, vec![1, 2, 3]);
    assert_eq!(artwork_reply(&shelf, "/9").status, 404);
}

#[test]
fn prepared_tracks_are_found_again() {
    let mut shelf = Shelf::new();
    let shown = prepare_playback(&mut shelf, track(None));
    assert_eq!(shown.audio_url, "music://localhost/1");
    assert_eq!(shown.title, "t");
    assert_eq!(token_of("//1"), "1");
    match playback(&shelf, "/1") {
        Playback::Stream(found) => assert_eq!(found.audio_url, "https://x/a.flac"),
        other => panic!("{other:?}"),
    }
    let local = prepare_playback(&mut shelf, track(Some(r#"{"localPath":"/m/a.flac"}"#)));
    assert_eq!(local.audio_url, "music://localhost/2");
    match playback(&shelf, "/2") {
        Playback::File(_, path) => assert_eq!(path, "/m/a.flac"),
        other => panic!("{other:?}"),
    }
    match playback(&shelf, "/3") {
        Playback::Unknown(reply) => assert_eq!(reply.status, 404),
        other => panic!("{other:?}"),
    }
}

#[test]
fn files_are_answered() {
    let reply = file_reply(&track(None), 2, 5, 10, Some(vec![1, 2, 3, 4]));
    assert_eq!(reply.status, 206);
    assert_eq!(reply.headers[0], ("Accept-Ranges".to_string(), "bytes".to_string()));
    assert_eq!(reply.headers[1], ("Content-Type".to_string(), "audio/flac".to_string()));
    assert_eq!(reply.headers[2], ("Content-Length".to_string(), "4".to_string()));
    assert_eq!(reply.headers[3], ("Content-Range".to_string(), "bytes 2-5/10".to_string()));
    assert_eq!(file_reply(&track(None), 2, 5, 10, None).status, 500);
    let refused = unsatisfied_reply(10);
    assert_eq!(refused.status, 416);
    assert_eq!(refused.headers[0], ("Content-Range".to_string(), "bytes */10".to_string()));
    assert!(bare_reply(502).headers.is_empty());
}

#[test]
fn streams_are_answered() {
    let mut headers = HeaderMap::new();
    headers.insert(CONTENT_TYPE, HeaderValue::from_static("audio/x-flac"));
    headers.insert(CONTENT_RANGE, HeaderValue::from_bytes(b"bytes 0-3/9\xff").unwrap());
    let reply = stream_reply(&track(None), 206, &headers, Some(vec![1, 2, 3, 4]));
    assert_eq!(reply.status, 206);
    assert_eq!(reply.headers[1], ("Content-Type".to_string(), "audio/flac".to_string()));
    assert_eq!(reply.content_range.unwrap(), b"bytes 0-3/9\xff".to_vec());
    assert_eq!(stream_reply(&track(None), 200, &headers, None).status, 502);
    let mut page = HeaderMap::new();
    page.insert(CONTENT_TYPE, HeaderValue::from_static("text/html"));
    let refused = stream_reply(&track(None), 200, &page, Some(vec![1]));
    assert_eq!(refused.status, 502);
    assert!(refused.body.is_empty());
    assert!(stream_reply(&track(None), 200, &HeaderMap::new(), Some(vec![])).content_range.is_none());
    let plain = source_reply(&track(None), 206, Some("audio/mpeg"), Some(b"r".to_vec()), Some(vec![1, 2]));
    assert_eq!(plain.headers[1], ("Content-Type".to_string(), "audio/flac".to_string()));
    assert_eq!(plain.headers[2], ("Content-Length".to_string(), "2".to_string()));
    assert_eq!(plain.content_range.as_deref(), Some(&b"r"[..]));
    assert_eq!(source_reply(&track(None), 200, Some("application/json"), None, Some(vec![1])).status, 502);
}

#[test]
fn stream_headers_are_kept_with_a_track() {
    let track = track(Some(r#"{"downloadHeaders":{"Referer":"r","User-Agent":"u","X":1}}"#));
    assert_eq!(
        stream_headers(&track),
        vec![("Referer".to_string(), "r".to_string()), ("User-Agent".to_string(), "u".to_string())]
    );
    assert_eq!(opening_range(true), None);
    assert_eq!(opening_range(false), Some("bytes=0-65535"));
}
