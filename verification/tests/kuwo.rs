use litemusicdl::domain::Track;
use litemusicdl::json::parse_json;
use litemusicdl::playback::stream_headers;
use litemusicdl::sources::kuwo::{
    audio_address, audio_inspected, audio_reply, audio_request, audio_start, card_fits, first_address, inspect_audio,
    inspect_reply, inspect_request, lyrics_request, lyrics_start, lyrics_text, may_be_audio, resolve_start,
    resolve_track, search_request, search_songs, track_from_value, tracks_from_songs, worth_sampling, AudioAction,
    KuwoAudioData, KuwoAudioEnvelope, LyricLine, ResolvedAudio, KUWO_UA, RESOLVERS,
};
use litemusicdl::sources::Lookup;
use reqwest::header::{HeaderMap, HeaderValue, CONTENT_TYPE};

fn typed(kind: &'static str) -> HeaderMap {
    let mut headers = HeaderMap::new();
    headers.insert(CONTENT_TYPE, HeaderValue::from_static(kind));
    headers
}

fn track(id: &str, url: &str) -> Track {
    Track {
        id: id.into(),
        source: "KuwoMusicClient".into(),
        title: String::new(),
        artist: String::new(),
        album: String::new(),
        artwork_url: String::new(),
        audio_url: url.into(),
        duration_ms: 0,
        format: None,
        quality: None,
        adapter_payload: None,
    }
}

fn found(headers: &HeaderMap, sample: &[u8], url: &str) -> Option<String> {
    inspect_audio(true, headers, Some(sample), url).map(|(_, extension)| extension)
}

#[test]
fn kuwo_inspects_streams() {
    let request = inspect_request("http://x/a.mp3");
    assert_eq!(request.url, "http://x/a.mp3");
    assert_eq!(request.headers[0], ("User-Agent".to_string(), KUWO_UA.to_string()));
    assert_eq!(request.headers[1], ("Range".to_string(), "bytes=0-8191".to_string()));
    let none = HeaderMap::new();
    assert_eq!(found(&typed("Audio/FLAC"), b"x", "u").as_deref(), Some("flac"));
    assert_eq!(found(&none, b"fLaC", "u").as_deref(), Some("flac"));
    assert_eq!(found(&none, b"OggS", "u").as_deref(), Some("ogg"));
    assert_eq!(found(&none, b"RIFF", "u").as_deref(), Some("wav"));
    assert_eq!(found(&none, b"....ftyp", "u").as_deref(), Some("m4a"));
    assert_eq!(found(&none, b"ID3", "u").as_deref(), Some("mp3"));
    assert_eq!(found(&none, &[0xff, 0xe3], "u").as_deref(), Some("mp3"));
    assert_eq!(found(&none, b"?", "http://x/a.AAC?b.c").as_deref(), Some("aac"));
    assert_eq!(found(&none, b"?", "http://x/a.exe"), None);
    assert_eq!(found(&none, b"", "http://x/a.mp3"), None);
    assert_eq!(found(&typed("text/plain"), b"ID3", "u"), None);
    assert_eq!(inspect_audio(false, &none, Some(b"ID3"), "u"), None);
    assert_eq!(inspect_audio(true, &none, None, "u"), None);
    assert_eq!(
        inspect_reply(true, Some("audio/MPEG"), Some(b"x"), "http://x"),
        Some(("http://x".to_string(), "mp3".to_string()))
    );
    assert_eq!(inspect_reply(true, Some("text/html"), Some(b"ID3"), "u"), None);
    assert!(may_be_audio(true, None) && !may_be_audio(false, None) && !may_be_audio(true, Some("TEXT/plain")));
    assert!(worth_sampling(true, &none));
    assert!(!worth_sampling(true, &typed("application/json")));
    assert!(!worth_sampling(false, &none));
}

#[test]
fn kuwo_asks_resolvers_in_turn() {
    assert!(matches!(audio_start(), AudioAction::Ask(0)));
    assert!(matches!(audio_reply(0, Some("ftp://x")), AudioAction::Ask(1)));
    assert!(matches!(audio_reply(3, None), AudioAction::Ask(4)));
    assert!(matches!(audio_reply(2, Some("http://x")), AudioAction::Inspect(2, url) if url == "http://x"));
    assert!(matches!(audio_inspected(8, None), AudioAction::Finish(None)));
    match audio_inspected(6, Some(("http://y".into(), "mp3".into()))) {
        AudioAction::Finish(Some(audio)) => {
            assert_eq!((audio.url.as_str(), audio.quality.as_str(), audio.extension.as_str()), ("http://y", "320K", "mp3"));
        }
        other => panic!("{other:?}"),
    }
    let reply = parse_json(br#"{"url":"http://a","data":{"url":"http://b"}}"#).unwrap();
    let first = |url: Option<&str>| KuwoAudioEnvelope { data: Some(KuwoAudioData { url: url.map(str::to_owned) }) };
    assert_eq!(first_address(first(Some("http://c"))).as_deref(), Some("http://c"));
    assert_eq!(first_address(first(None)), None);
    assert_eq!(first_address(KuwoAudioEnvelope { data: None }), None);
    assert_eq!(audio_address(1, &reply).as_deref(), Some("http://a"));
    assert_eq!(audio_address(4, &reply).as_deref(), Some("http://b"));
    assert_eq!(audio_address(8, &reply).as_deref(), Some("http://a"));
    let urls: Vec<String> = (0..RESOLVERS).map(|step| audio_request(step, "7").url).collect();
    assert_eq!(urls[0], "https://kw-api.cenguigui.cn/");
    assert_eq!(urls[1], "https://lxmusicapi.onrender.com/url/kw/7/flac");
    assert_eq!(urls[2], "http://music.nxinxz.com/kw.php");
    assert_eq!(urls[5], "https://musicapi.haitangw.net/music/kw.php");
    assert_eq!(urls[8], "https://api.nobb.cc/kuwo.music/index.php");
    assert_eq!(audio_request(3, "7").query[1], ("level".to_string(), "exhigh".to_string()));
}

#[test]
fn kuwo_searches() {
    let request = search_request("晴天", 3, 9);
    assert_eq!(request.url, "https://www.kuwo.cn/search/searchMusicBykeyWord");
    assert_eq!(request.query[10], ("pn".to_string(), "8".to_string()));
    assert_eq!(search_request("晴天", 3, 0).query[10].1, "0");
    assert_eq!(search_request("晴天", 3, 1).query[10].1, "0");
    assert_eq!(request.query[11], ("rn".to_string(), "3".to_string()));
    assert_eq!(request.query[12], ("all".to_string(), "晴天".to_string()));
    let songs = search_songs(
        " callback({\"abslist\":[{\"MUSICRID\":\"MUSIC_5\",\"SONGNAME\":\"a\",\"SONGNAME\":\"b\",\"DURATION\":\"12\"},{\"x\":1},{\"musicrid\":\"6\"}]}) ",
    )
    .unwrap();
    assert_eq!(songs.len(), 3);
    assert!(songs.iter().all(card_fits));
    let tracks = tracks_from_songs(&songs, 2);
    assert_eq!(tracks.len(), 1);
    assert_eq!(tracks[0].id, "kuwo:5");
    assert_eq!(tracks[0].title, "b");
    assert_eq!(tracks[0].duration_ms, 12_000);
    assert_eq!(
        tracks[0].adapter_payload.as_ref().unwrap().get("downloadHeaders").unwrap().get("User-Agent").unwrap().as_str(),
        Some(KUWO_UA)
    );
    assert_eq!(tracks_from_songs(&songs, 9).len(), 2);
    assert!(search_songs("{}").unwrap().is_empty());
    assert_eq!(
        search_songs("callback(oops").unwrap_err(),
        "酷我音乐搜索数据解析失败: expected value at line 1 column 1; 响应: callback(oops"
    );
}

#[test]
fn kuwo_cards_fall_back_to_other_fields() {
    let card = parse_json(
        br#"{"musicrid":"7","NAME":"n","artist":"a","album":"b","duration":"x","albumpic":"p"}"#,
    )
    .unwrap();
    let track = track_from_value(&card).unwrap();
    assert_eq!((track.title.as_str(), track.artist.as_str(), track.album.as_str()), ("n", "a", "b"));
    assert_eq!(track.artwork_url, "p");
    assert_eq!(track.duration_ms, 0);
    assert!(track_from_value(&parse_json(br#"{"NAME":"n"}"#).unwrap()).is_none());
    let long = parse_json(br#"{"MUSICRID":"7","DURATION":"18446744073709551615"}"#).unwrap();
    assert!(!card_fits(&long));
}

#[test]
fn kuwo_resolves_tracks() {
    assert!(matches!(resolve_start(&track("kuwo:7", "http://x")), Lookup::Ready));
    assert!(matches!(resolve_start(&track("kuwo:7", "")), Lookup::Song(id) if id == "7"));
    assert!(matches!(resolve_start(&track("qq:7", "")), Lookup::Foreign(m) if m == "歌曲标识不属于酷我音乐"));
    let audio = ResolvedAudio { url: "http://y".into(), quality: "".into(), extension: "flac".into() };
    let resolved = resolve_track(&track("kuwo:7", ""), Some(audio)).unwrap();
    assert_eq!(resolved.audio_url, "http://y");
    assert_eq!(resolved.format.as_deref(), Some("FLAC"));
    assert_eq!(resolved.quality, None);
    assert_eq!(resolve_track(&track("kuwo:7", ""), None).unwrap_err(), "酷我音乐未返回可用音频地址");
}

#[test]
fn kuwo_puts_lyrics_together() {
    assert_eq!(lyrics_start(&track("kuwo:7", "")), Ok("7".into()));
    assert_eq!(lyrics_start(&track("qq:7", "")), Err("歌曲标识不属于酷我音乐".into()));
    assert_eq!(lyrics_request("7").query, vec![("musicId".to_string(), "7".to_string())]);
    let lines = vec![
        LyricLine { stamp: Some("00:01.00".into()), words: "a".into() },
        LyricLine { stamp: None, words: "b".into() },
        LyricLine { stamp: Some("01:02.50".into()), words: "c".into() },
    ];
    assert_eq!(lyrics_text(&lines).as_deref(), Some("[00:01.00]a\n[01:02.50]c"));
    assert_eq!(lyrics_text(&vec![]), None);
}

#[test]
fn kuwo_streams_are_fetched_with_the_headers_of_the_source() {
    let card = parse_json(br#"{"MUSICRID":"MUSIC_7"}"#).unwrap();
    let audio = ResolvedAudio { url: "http://y".into(), quality: "".into(), extension: "flac".into() };
    let resolved = resolve_track(&track_from_value(&card).unwrap(), Some(audio)).unwrap();
    assert_eq!(stream_headers(&resolved), vec![("User-Agent".to_string(), KUWO_UA.to_string())]);
}
