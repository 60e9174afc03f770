use litemusicdl::domain::Track;
use litemusicdl::json::{parse_json, Json};
use litemusicdl::playback::stream_headers;
use litemusicdl::request::Body;
use litemusicdl::sources::netease::{
    audio_response, cocodownloader_request, cocodownloader_url, ffapi_request, ffapi_url, gdstudio_request, gdstudio_url,
    haitangw_reply, haitangw_request, ip_request, label_of, level_rank, lyrics_request, lyrics_start, lyrics_text,
    netease_quality, next_candidate, parse_ip, playable, probe_request, quality_start, rank_candidates,
    resolve_quality, resolve_start, resolve_track, search_request, toubiec_reply, toubiec_request, toubiec_start,
    track_from_song, tracks_from_songs, LevelAction, NeteaseAlbum, NeteaseArtist, NeteaseLookup, NeteasePrivilege,
    NeteaseSong, NETEASE_REFERER,
};
use reqwest::header::{HeaderMap, HeaderValue, CONTENT_TYPE};

fn track(id: &str, url: &str) -> Track {
    Track {
        id: id.into(),
        source: "NeteaseMusicClient".into(),
        title: String::new(),
        artist: String::new(),
        album: String::new(),
        artwork_url: String::new(),
        audio_url: url.into(),
        duration_ms: 0,
        format: None,
        quality: None,
        adapter_payload: None,
    }
}

#[test]
fn netease_uses_max_br_level() {
    // toubiec can deliver up to maxBrLevel, so a lossless-capable card plays
    // as 无损; standard tiers map to 320K/128K.
    let song = NeteaseSong {
        id: 1,
        name: "song".into(),
        artists: vec![],
        album: None,
        duration: Some(1000),
        privilege: Some(NeteasePrivilege { max_br_level: Some("lossless".into()) }),
        sq: None,
        h: None,
        m: None,
        l: None,
    };
    assert_eq!(netease_quality(&song), (Some("无损".into()), Some("FLAC".into())));

    let song = NeteaseSong { privilege: Some(NeteasePrivilege { max_br_level: Some("exhigh".into()) }), ..song };
    assert_eq!(netease_quality(&song), (Some("320K".into()), Some("MP3".into())));

    let song = NeteaseSong { privilege: None, h: Some(Json::Record(vec![])), ..song };
    assert_eq!(netease_quality(&song), (Some("320K".into()), Some("MP3".into())));
}

#[test]
fn netease_artwork_url_is_https() {
    let song = NeteaseSong {
        id: 1,
        name: "song".into(),
        artists: vec![],
        album: Some(NeteaseAlbum {
            name: "album".into(),
            pic_url: Some("http://p2.music.126.net/abc/cover.jpg".into()),
        }),
        duration: Some(1000),
        privilege: None,
        sq: None,
        h: None,
        m: None,
        l: None,
    };
    let track = track_from_song(song);
    assert_eq!(track.artwork_url, "https://p2.music.126.net/abc/cover.jpg");
}

fn card(level: Option<&str>) -> NeteaseSong {
    NeteaseSong {
        id: 9,
        name: "n".into(),
        artists: vec![NeteaseArtist { name: "a".into() }, NeteaseArtist { name: "b".into() }],
        album: Some(NeteaseAlbum { name: "al".into(), pic_url: Some("https://x".into()) }),
        duration: None,
        privilege: Some(NeteasePrivilege { max_br_level: level.map(|text| text.to_owned()) }),
        sq: None,
        h: None,
        m: None,
        l: Some(Json::Null),
    }
}

#[test]
fn netease_cards_show_their_level() {
    let quality = |level: &str| netease_quality(&card(Some(level))).0.unwrap();
    assert_eq!(quality("Dolby"), "杜比全景声");
    assert_eq!(quality("jymaster"), "臻品母带");
    assert_eq!(quality("jyeffect"), "臻品音效");
    assert_eq!(quality("SKY"), "臻品音效");
    assert_eq!(quality("hires"), "无损");
    assert_eq!(quality("standard"), "128K");
    assert_eq!(netease_quality(&NeteaseSong { sq: Some(Json::Null), ..card(None) }).0.unwrap(), "无损");
    assert_eq!(netease_quality(&NeteaseSong { m: Some(Json::Null), ..card(None) }).0.unwrap(), "192K");
    assert_eq!(netease_quality(&NeteaseSong { l: None, ..card(None) }), (None, None));
    let tracks = tracks_from_songs(Some(vec![card(None), card(Some("exhigh"))]));
    assert_eq!(tracks[0].id, "netease:9");
    assert_eq!(tracks[0].artist, "a / b");
    assert_eq!(tracks[0].artwork_url, "https://x");
    assert_eq!(tracks[1].quality.as_deref(), Some("320K"));
    assert!(tracks_from_songs(None).is_empty());
}

#[test]
fn netease_ranks_what_was_found() {
    let pair = |url: &str, level: &str| Some((url.to_string(), level.to_string()));
    let ranked = rank_candidates(&vec![
        pair("u1", "standard"),
        None,
        pair("u2", "lossless"),
        pair("", "jymaster"),
        pair("u3", "lossless"),
    ]);
    let urls: Vec<&str> = ranked.iter().map(|(url, _)| url.as_str()).collect();
    assert_eq!(urls, vec!["", "u2", "u3", "u1"]);
    assert_eq!(next_candidate(&ranked, 0), Some(1));
    assert_eq!(next_candidate(&ranked, 2), Some(2));
    assert_eq!(next_candidate(&ranked, 4), None);
    let levels = ["jymaster", "jyeffect", "sky", "hires", "lossless", "dolby", "exhigh", "standard", "?"];
    let ranks: Vec<u8> = levels.iter().map(|level| level_rank(level)).collect();
    assert_eq!(ranks, vec![8, 7, 7, 6, 5, 4, 3, 2, 1]);
}

#[test]
fn netease_tries_addresses() {
    let typed = |kind: &'static str| {
        let mut headers = HeaderMap::new();
        headers.insert(CONTENT_TYPE, HeaderValue::from_static(kind));
        headers
    };
    assert!(playable(200, &typed("audio/mpeg")));
    assert!(playable(206, &typed("application/octet-stream; x")));
    assert!(playable(200, &typed("x/binary")));
    assert!(playable(200, &typed("")));
    assert!(playable(200, &HeaderMap::new()));
    assert!(!playable(200, &typed("Audio/mpeg")));
    assert!(!playable(200, &typed("text/html")));
    assert!(!playable(302, &typed("audio/mpeg")));
    assert!(!playable(404, &HeaderMap::new()));
    assert!(audio_response(206, Some("audio/mpeg")));
    assert!(audio_response(200, Some("")));
    assert!(audio_response(200, None));
    assert!(!audio_response(200, Some("text/html")));
    assert!(!audio_response(404, Some("audio/mpeg")));
    let probe = probe_request("http://x");
    assert_eq!(probe.timeout, Some(6));
    assert_eq!(probe.headers[2], ("Range".to_string(), "bytes=0-8191".to_string()));
}

#[test]
fn netease_asks_toubiec_level_by_level() {
    assert!(matches!(toubiec_start(&None), LevelAction::Finish(None)));
    assert!(matches!(toubiec_start(&Some("1.2.3.4".into())), LevelAction::Ask(0, false)));
    let good = parse_json(br#"{"data":{"url":"http://x","ip":"1.2.3.4"}}"#).unwrap();
    let bad = parse_json(br#"{"data":{"url":""}}"#).unwrap();
    assert_eq!(parse_ip(Some(&good)).as_deref(), Some("1.2.3.4"));
    assert_eq!(parse_ip(None), None);
    assert!(matches!(toubiec_reply(2, false, None), LevelAction::Ask(2, true)));
    assert!(matches!(toubiec_reply(2, true, Some(&bad)), LevelAction::Ask(3, false)));
    assert!(matches!(toubiec_reply(7, true, None), LevelAction::Finish(None)));
    match toubiec_reply(3, true, Some(&good)) {
        LevelAction::Finish(Some((url, level))) => assert_eq!((url.as_str(), level.as_str()), ("http://x", "hires")),
        other => panic!("{other:?}"),
    }
    assert_eq!(ip_request(5).url, "https://nextmusic.toubiec.cn/api/ip");
    let request = toubiec_request(9, 4, true, 5, "ip");
    assert_eq!(request.url, "https://nextmusic.toubiec.cn/api/getMusicUrl");
    let Body::Json(payload) = request.body else { panic!("no body") };
    assert_eq!(payload.get("id").unwrap().as_str(), Some("9"));
    assert_eq!(payload.get("level").unwrap().as_str(), Some("lossless"));
    assert_eq!(payload.get("ip").unwrap().as_str(), Some("ip"));
}

#[test]
fn netease_asks_the_other_resolvers() {
    let good = parse_json(br#"{"url":"http://x","data":{"url":"http://y"}}"#).unwrap();
    let bad = parse_json(br#"{"url":"ftp://x","data":{"url":"ftp://y"}}"#).unwrap();
    assert_eq!(gdstudio_url(Some(&good)), Some(("http://x".into(), "lossless".into())));
    assert_eq!(cocodownloader_url(Some(&good)), Some(("http://x".into(), "lossless".into())));
    assert_eq!(ffapi_url(Some(&good)), Some(("http://x".into(), "standard".into())));
    assert_eq!(ffapi_url(Some(&bad)), None);
    assert_eq!(gdstudio_url(None), None);
    assert!(matches!(haitangw_reply(0, None), LevelAction::Finish(None)));
    assert!(matches!(haitangw_reply(0, Some(&bad)), LevelAction::Ask(1, false)));
    assert!(matches!(haitangw_reply(3, Some(&bad)), LevelAction::Finish(None)));
    assert!(matches!(haitangw_reply(1, Some(&good)), LevelAction::Finish(Some((url, level))) if url == "http://y" && level == "hires"));
    assert_eq!(gdstudio_request(9).query[1], ("id".to_string(), "9".to_string()));
    assert_eq!(cocodownloader_request(9).query[0], ("id".to_string(), "9".to_string()));
    assert_eq!(ffapi_request(9).url, "https://ffapi.cn/int/v1/netease_url");
    assert_eq!(haitangw_request(9, 2).query[1], ("level".to_string(), "exhigh".to_string()));
}

#[test]
fn netease_searches_by_page() {
    let offset = |limit: usize, page: u32| {
        let Body::Form(form) = search_request("q", limit, page).body else { panic!("no form") };
        form[2].1.clone()
    };
    assert_eq!(offset(30, 0), "0");
    assert_eq!(offset(30, 1), "0");
    assert_eq!(offset(30, 3), "60");
    assert_eq!(offset(usize::MAX, 3), usize::MAX.to_string());
}

#[test]
fn netease_resolves_tracks() {
    assert!(matches!(resolve_start(&track("netease:7", "http://x")), NeteaseLookup::Ready));
    assert!(matches!(resolve_start(&track("netease:7", " ")), NeteaseLookup::Song(7)));
    assert!(matches!(resolve_start(&track("netease:x", "")), NeteaseLookup::Refused(m) if m == "网易云音乐歌曲标识无效"));
    assert!(matches!(resolve_start(&track("qq:7", "")), NeteaseLookup::Refused(m) if m == "歌曲标识不属于网易云音乐"));
    let resolved = resolve_track(&track("netease:7", ""), "http://x/a.flac?y=z.w".into(), "hires").unwrap();
    assert_eq!(resolved.format.as_deref(), Some("FLAC"));
    assert_eq!(resolved.quality.as_deref(), Some("无损"));
    let payload = resolved.adapter_payload.unwrap();
    assert_eq!(payload.get("extension").unwrap().as_str(), Some("flac"));
    assert_eq!(payload.get("downloadHeaders").unwrap().get("Referer").unwrap().as_str(), Some(NETEASE_REFERER));
    assert_eq!(
        resolve_track(&track("netease:7", ""), String::new(), "").unwrap_err(),
        "网易云音乐未能解析出可播放的音频地址（该歌曲可能为付费/版权曲目，或当前音解析服务暂时不可用）"
    );
    assert_eq!(quality_start(&track("netease:7", "")), Some(7));
    assert_eq!(quality_start(&track("netease:", "")), None);
    assert_eq!(resolve_quality("http://x/nothing-short", "sky"), Some(("沉浸环绕声".into(), "MP3".into())));
    assert_eq!(resolve_quality("", "sky"), None);
    let labels: Vec<String> =
        ["jymaster", "jyeffect", "dolby", "exhigh", "standard", "odd"].iter().map(|level| label_of(level)).collect();
    assert_eq!(labels, vec!["臻品母带", "臻品音效", "杜比全景声", "320K", "128K", "odd"]);
}

#[test]
fn netease_reads_lyrics() {
    assert_eq!(lyrics_start(&track("netease:x", "")), Ok("x".into()));
    assert_eq!(lyrics_start(&track("qq:x", "")), Err("歌曲标识不属于网易云音乐".into()));
    assert_eq!(lyrics_request("7").query[0], ("id".to_string(), "7".to_string()));
    assert_eq!(lyrics_text(Some("[00:01]词".into())).as_deref(), Some("[00:01]词"));
    assert_eq!(lyrics_text(Some(" \n".into())), None);
    assert_eq!(lyrics_text(None), None);
}

#[test]
fn netease_streams_are_fetched_with_the_headers_of_the_source() {
    let resolved = resolve_track(&track("netease:7", ""), "http://x/a.flac".into(), "lossless").unwrap();
    let headers = stream_headers(&resolved);
    assert_eq!(headers[0], ("Referer".to_string(), NETEASE_REFERER.to_string()));
    assert_eq!(headers[1].0, "User-Agent");
}
