use litemusicdl::domain::{de_u64_loose, Track};
use litemusicdl::download::file_extension;
use litemusicdl::json::{list_or_default, parse_json, text_or_default, Json};
use litemusicdl::playback::stream_headers;
use litemusicdl::request::Body;
use litemusicdl::sources::qq::{
    can_take_fields, decode_base64, guid, legacy_list, legacy_request, legacy_songs, lyrics_request, lyrics_start,
    lyrics_text, mobile_songs, qq_quality, quality_start, resolve_quality, resolve_start, resolve_tang, resolve_track,
    search_request, stream_reply, stream_start, tang_request, track_from_song, tracks_from_songs, vkey_request, QqAlbum,
    QqFile, QqSinger, QqSong, QqStream, StreamAction,
};
use litemusicdl::sources::Lookup;

fn song(file: QqFile) -> QqSong {
    QqSong {
        mid: "m".into(),
        title: "t".into(),
        singer: vec![],
        album: QqAlbum::default(),
        interval: 0,
        file,
        size128: 0,
        size320: 0,
        sizeape: 0,
        sizeflac: 0,
        sizeogg: 0,
    }
}

// Legacy `client_search_cp` items carry flat size fields instead of `file`.
fn legacy(size128: u64, size320: u64, sizeflac: u64, sizeogg: u64) -> QqSong {
    QqSong { size128, size320, sizeflac, sizeogg, ..song(QqFile::default()) }
}

#[test]
fn qq_prefers_lossless_then_standard() {
    // A lossless-capable card plays as 无损 (resolve tries lossless first).
    let s = song(QqFile { size_flac: 100, size_320mp3: 99, ..Default::default() });
    assert_eq!(qq_quality(&s), (Some("无损".into()), Some("FLAC".into())));

    let s = song(QqFile { size_320mp3: 100, size_128mp3: 99, ..Default::default() });
    assert_eq!(qq_quality(&s), (Some("320K".into()), Some("MP3".into())));

    let s = song(QqFile { size_128mp3: 100, size_dolby: 100, ..Default::default() });
    assert_eq!(qq_quality(&s), (Some("128K".into()), Some("MP3".into())));

    // Only VIP Dolby present and no standard tier -> nothing to report.
    let s = song(QqFile { size_dolby: 100, ..Default::default() });
    assert_eq!(qq_quality(&s), (None, None));

    assert_eq!(qq_quality(&song(QqFile::default())), (None, None));
}

fn number(value: Option<&Json>, name: &str) -> u64 {
    value.and_then(|value| value.get(name)).map_or(0, |size| de_u64_loose(size).unwrap())
}

#[test]
fn qq_deserializes_real_file_sizes() {
    let card = parse_json(
        r#"{
            "mid": "003Qui1q2u1Zho",
            "title": "晴天",
            "singer": [{"name": "周杰伦"}],
            "album": {"mid": "000MkMni19ClKG", "title": "叶惠美"},
            "interval": 269,
            "file": {"size_128mp3": 4317292, "size_320mp3": 10792943, "size_flac": 55397039, "size_dolby": 0}
        }"#
        .as_bytes(),
    )
    .unwrap();
    let file = card.get("file");
    let album = card.get("album").unwrap();
    let song = QqSong {
        mid: text_or_default(card.get("mid")),
        title: text_or_default(card.get("title")),
        singer: list_or_default(card.get("singer"))
            .iter()
            .map(|singer| QqSinger { name: text_or_default(singer.get("name")) })
            .collect(),
        album: QqAlbum { title: text_or_default(album.get("title")), mid: text_or_default(album.get("mid")) },
        interval: number(Some(&card), "interval"),
        ..song(QqFile {
            size_128mp3: number(file, "size_128mp3"),
            size_320mp3: number(file, "size_320mp3"),
            size_flac: number(file, "size_flac"),
            size_dolby: number(file, "size_dolby"),
            ..Default::default()
        })
    };
    assert_eq!(song.file.size_flac, 55_397_039);
    assert_eq!(qq_quality(&song), (Some("无损".into()), Some("FLAC".into())));
}

#[test]
fn qq_legacy_fields_report_quality() {
    // Legacy cards have no `file`; quality comes from flat size fields.
    let s = legacy(4_288_455, 10_720_847, 31_386_542, 6_600_445);
    assert_eq!(qq_quality(&s), (Some("无损".into()), Some("FLAC".into())));

    let s = legacy(4_288_455, 10_720_847, 0, 0);
    assert_eq!(qq_quality(&s), (Some("320K".into()), Some("MP3".into())));

    let s = legacy(4_288_455, 0, 0, 0);
    assert_eq!(qq_quality(&s), (Some("128K".into()), Some("MP3".into())));
}

fn track(id: &str, payload: Option<&str>) -> Track {
    Track {
        id: id.into(),
        source: "QQMusicClient".into(),
        title: "t".into(),
        artist: String::new(),
        album: String::new(),
        artwork_url: String::new(),
        audio_url: String::new(),
        duration_ms: 0,
        format: None,
        quality: None,
        adapter_payload: payload.map(|text| parse_json(text.as_bytes()).unwrap()),
    }
}

#[test]
fn qq_requests() {
    assert_eq!(guid(0xff, 0x01), "000000000000000000000000000000fe");
    let request = search_request("g", "晴天", 3, 2);
    assert_eq!(request.url, "https://u.y.qq.com/cgi-bin/musicu.fcg");
    let Body::Json(payload) = request.body else { panic!("no body") };
    let call = payload.get("music.search.SearchCgiService.DoSearchForQQMusicMobile").unwrap();
    assert_eq!(call.get("param").unwrap().get("query").unwrap().as_str(), Some("晴天"));
    assert_eq!(payload.get("comm").unwrap().get("ct").unwrap().as_str(), Some("11"));
    let legacy = legacy_request("晴天", 3, 2);
    assert_eq!(legacy.query[1], ("p".to_string(), "2".to_string()));
    assert_eq!(legacy.query[3], ("w".to_string(), "晴天".to_string()));
}

#[test]
fn qq_reads_search_replies() {
    let reply = parse_json(
        r#"{"music.search.SearchCgiService.DoSearchForQQMusicMobile":{"data":{"body":{"item_song":[{"mid":"m"}]}}}}"#
            .as_bytes(),
    )
    .unwrap();
    assert_eq!(mobile_songs(&reply).unwrap().len(), 1);
    assert!(mobile_songs(&parse_json(b"{}").unwrap()).is_none());
    let reply = parse_json(
        r#"{"data":{"song":{"list":[{"albumname":"n","albummid":"m"},{"album":{"title":"x"}},null]}}}"#.as_bytes(),
    )
    .unwrap();
    let songs = legacy_list(&reply);
    assert!(songs.iter().all(can_take_fields));
    let songs = legacy_songs(songs);
    assert_eq!(songs[0].get("album").unwrap().get("title").unwrap().as_str(), Some("n"));
    assert_eq!(songs[0].get("album").unwrap().get("mid").unwrap().as_str(), Some("m"));
    assert_eq!(songs[1].get("album").unwrap().get("title").unwrap().as_str(), Some("x"));
    assert_eq!(songs[2].get("album").unwrap().get("mid").unwrap().as_str(), Some(""));
    assert!(!can_take_fields(&parse_json(b"[]").unwrap()));
}

#[test]
fn qq_cards_become_tracks() {
    let mut card = song(QqFile { size_flac: 1, ..Default::default() });
    card.singer = vec![QqSinger { name: "a".into() }, QqSinger { name: "b".into() }];
    card.album = QqAlbum { title: "al".into(), mid: "am".into() };
    card.interval = 269;
    let track = track_from_song(&card);
    assert_eq!(track.id, "qq:m");
    assert_eq!(track.artist, "a / b");
    assert_eq!(track.artwork_url, "https://y.gtimg.cn/music/photo_new/T002R800x800M000am.jpg");
    assert_eq!(track.duration_ms, 269_000);
    assert_eq!(track.quality.as_deref(), Some("无损"));
    let tracks = tracks_from_songs(&vec![None, Some(card.clone()), None, Some(card.clone()), Some(card)], 2);
    assert_eq!(tracks.len(), 2);
}

#[test]
fn qq_takes_the_first_file() {
    assert!(matches!(stream_start(), StreamAction::AskFile(0)));
    assert!(matches!(stream_reply(0, None), StreamAction::AskFile(1)));
    assert!(matches!(stream_reply(12, None), StreamAction::AskTang));
    let reply = |text: &str| {
        parse_json(
            format!("{{\"music.vkey.GetVkey.UrlGetVkey\":{{\"data\":{{\"midurlinfo\":[{text}]}}}}}}").as_bytes(),
        )
        .unwrap()
    };
    match stream_reply(3, Some(&reply(r#"{"purl":"F000x.flac"}"#))) {
        StreamAction::Finish(stream) => {
            assert_eq!(stream.url, "https://isure.stream.qqmusic.qq.com/F000x.flac");
            assert_eq!((stream.quality.as_str(), stream.extension.as_str()), ("无损", "flac"));
        }
        other => panic!("{other:?}"),
    }
    match stream_reply(9, Some(&reply(r#"{"wifiurl":"http://y"}"#))) {
        StreamAction::Finish(stream) => assert_eq!((stream.url.as_str(), stream.extension.as_str()), ("http://y", "mp3")),
        other => panic!("{other:?}"),
    }
    // An address that is there but empty is not replaced by the other one.
    assert!(matches!(
        stream_reply(4, Some(&reply(r#"{"purl":"","wifiurl":"http://y"}"#))),
        StreamAction::AskFile(5)
    ));
    let Body::Json(payload) = vkey_request(8, "MID", "g").body else { panic!("no body") };
    let param = payload.get("music.vkey.GetVkey.UrlGetVkey").unwrap().get("param").unwrap();
    assert_eq!(param.get("filename").unwrap().as_array().unwrap()[0].as_str(), Some("M800MIDMID.mp3"));
}

#[test]
fn qq_takes_the_best_tang_tier() {
    assert_eq!(resolve_tang(None).url, "");
    let reply = parse_json(
        br#"{"song_play_url_sq":"","song_play_url_hq":"http://h/a.longer?x","song_play_url":"http://l/a.mp3"}"#,
    )
    .unwrap();
    let stream = resolve_tang(Some(&reply));
    assert_eq!(
        (stream.url.as_str(), stream.quality.as_str(), stream.extension.as_str()),
        ("http://h/a.longer?x", "320K", "m4a")
    );
    assert_eq!(resolve_quality(stream), Some(("320K".into(), "M4A".into())));
    assert_eq!(resolve_quality(resolve_tang(None)), None);
    assert_eq!(tang_request("m").query, vec![("mid".to_string(), "m".to_string())]);
}

#[test]
fn qq_resolves_tracks() {
    assert!(matches!(resolve_start(&track("qq:1", None)), Lookup::Song(id) if id == "1"));
    assert!(matches!(resolve_start(&track("x:1", None)), Lookup::Foreign(m) if m == "歌曲标识不属于 QQ 音乐"));
    assert_eq!(quality_start(&track("qq:1", None)).as_deref(), Some("1"));
    assert_eq!(quality_start(&track("x:1", None)), None);
    let stream = QqStream { url: "http://u".into(), quality: "无损".into(), extension: "flac".into() };
    let resolved = resolve_track(&track("qq:1", Some(r#"{"a":"b"}"#)), stream.clone()).unwrap();
    assert_eq!(resolved.audio_url, "http://u");
    assert_eq!(resolved.format.as_deref(), Some("FLAC"));
    assert_eq!(resolved.quality.as_deref(), Some("无损"));
    let payload = resolved.adapter_payload.unwrap();
    assert_eq!(payload.get("extension").unwrap().as_str(), Some("flac"));
    assert_eq!(payload.get("a").unwrap().as_str(), Some("b"));
    assert!(resolve_track(&track("qq:1", None), stream).unwrap().adapter_payload.is_none());
    let nothing = QqStream { url: "".into(), quality: "".into(), extension: "".into() };
    assert_eq!(resolve_track(&track("qq:1", None), nothing).unwrap_err(), "QQ 音乐未返回可用音频地址");
}

#[test]
fn qq_decodes_lyrics() {
    assert_eq!(decode_base64("5pm05aSp").as_deref(), Some("晴天"));
    assert_eq!(decode_base64("YQ==").as_deref(), Some("a"));
    assert_eq!(decode_base64("YWI=").as_deref(), Some("ab"));
    assert_eq!(decode_base64("YW\tI").as_deref(), Some("ab"));
    assert_eq!(decode_base64("=Y=W\r\nI=\u{c}").as_deref(), Some("ab"));
    assert_eq!(decode_base64(" Y W\nJ j ").as_deref(), Some("abc"));
    assert_eq!(decode_base64("+/+/"), None);
    assert_eq!(decode_base64("YWJjZ"), None);
    assert_eq!(decode_base64("Y*=="), None);
    assert_eq!(decode_base64("").as_deref(), Some(""));
    assert_eq!(lyrics_text(Some("YWI=")).as_deref(), Some("ab"));
    assert_eq!(lyrics_text(Some("IAo=")), None);
    assert_eq!(lyrics_text(None), None);
    assert_eq!(lyrics_start(&track("qq:1", None)), Ok("1".into()));
    assert_eq!(lyrics_start(&track("x:1", None)), Err("歌曲标识不属于 QQ 音乐".into()));
    assert_eq!(lyrics_request("m").query[0], ("songmid".to_string(), "m".to_string()));
}

#[test]
fn qq_streams_are_fetched_with_the_headers_of_the_source() {
    let card = song(QqFile { size_flac: 1, ..Default::default() });
    let stream = QqStream { url: "http://u".into(), quality: "无损".into(), extension: "FLAC".into() };
    let resolved = resolve_track(&track_from_song(&card), stream.clone()).unwrap();
    let headers = stream_headers(&resolved);
    assert_eq!(headers[0], ("Referer".to_string(), "http://y.qq.com".to_string()));
    assert_eq!(headers[1].0, "User-Agent");
    assert_eq!(file_extension(&resolved), "flac");
    let announced = resolve_quality(stream).unwrap();
    assert_eq!((resolved.quality.unwrap(), resolved.format.unwrap()), announced);
}
