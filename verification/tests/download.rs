use litemusicdl::domain::Track;
use litemusicdl::download::{
    cancel_download, cover_request, download_request, download_step, fetched_cover, file_extension, file_name,
    safe_filename, DownloadAction, DownloadEvent, ARTWORK_UA,
};
use litemusicdl::history::{read_history, write_history};
use litemusicdl::json::parse_json;
use litemusicdl::shelf::Shelf;

fn track(format: Option<&str>, payload: Option<&str>) -> Track {
    Track {
        id: String::new(),
        source: String::new(),
        title: "A/B: C?".into(),
        artist: " who. ".into(),
        album: String::new(),
        artwork_url: " https://x/cover.jpg ".into(),
        audio_url: "https://x/a".into(),
        duration_ms: 0,
        format: format.map(|text| text.to_owned()),
        quality: None,
        adapter_payload: payload.map(|text| parse_json(text.as_bytes()).unwrap()),
    }
}

#[test]
fn names_are_made_safe() {
    assert_eq!(safe_filename("a/b\\c:d*e?f\"g<h>i|j\u{7}k"), "a_b_c_d_e_f_g_h_i_j_k");
    assert_eq!(safe_filename("  name...  "), "name");
    assert_eq!(safe_filename("..."), "track");
    assert_eq!(safe_filename(""), "track");
    assert_eq!(safe_filename(&"词".repeat(130)), "词".repeat(120));
}

#[test]
fn extensions_are_chosen() {
    assert_eq!(file_extension(&track(Some("MP3"), Some(r#"{"extension":"FLAC"}"#))), "flac");
    assert_eq!(file_extension(&track(Some("FLAC"), Some(r#"{"extension":" "}"#))), "flac");
    assert_eq!(file_extension(&track(Some("FLAC"), None)), "flac");
    assert_eq!(file_extension(&track(Some("toolong"), None)), "mp3");
    assert_eq!(file_extension(&track(Some(" "), None)), "mp3");
    assert_eq!(file_extension(&track(None, None)), "mp3");
    assert_eq!(file_name(&track(Some("FLAC"), None)), "A_B_ C_ - who.flac");
}

#[test]
fn downloads_need_an_address() {
    let mut silent = track(None, None);
    silent.audio_url.clear();
    assert_eq!(download_request(&silent).unwrap_err(), "此音源没有提供可下载地址");
    let request = download_request(&track(None, Some(r#"{"downloadHeaders":{"Referer":"r"}}"#))).unwrap();
    assert_eq!(request.url, "https://x/a");
    assert_eq!(request.headers, vec![("Referer".to_string(), "r".to_string())]);
}

#[test]
fn downloads_go_on_until_they_are_stopped() {
    assert!(matches!(download_step(DownloadEvent::Piece(vec![1]), false), DownloadAction::Write(bytes) if bytes == vec![1]));
    assert!(matches!(download_step(DownloadEvent::Piece(vec![1]), true), DownloadAction::Fail(m) if m == "已停止下载"));
    assert!(matches!(download_step(DownloadEvent::Stopped, false), DownloadAction::Fail(m) if m == "已停止下载"));
    assert!(matches!(
        download_step(DownloadEvent::Broken("gone".into()), false),
        DownloadAction::Fail(m) if m == "读取下载流失败: gone"
    ));
    assert!(matches!(download_step(DownloadEvent::Broken("gone".into()), true), DownloadAction::Fail(m) if m == "已停止下载"));
    assert!(matches!(download_step(DownloadEvent::Ended, true), DownloadAction::Finish));
}

fn run(events: Vec<(DownloadEvent, bool)>) -> (Vec<u8>, Option<Result<(), String>>) {
    let mut written = Vec::new();
    for (event, stopped) in events {
        match download_step(event, stopped) {
            DownloadAction::Write(bytes) => written.extend(bytes),
            DownloadAction::Finish => return (written, Some(Ok(()))),
            DownloadAction::Fail(message) => return (written, Some(Err(message))),
        }
    }
    (written, None)
}

#[test]
fn whole_downloads_hold_every_piece() {
    let piece = |bytes: &[u8]| (DownloadEvent::Piece(bytes.to_vec()), false);
    assert_eq!(
        run(vec![piece(b"ab"), piece(b""), piece(b"c"), (DownloadEvent::Ended, false), piece(b"d")]),
        (b"abc".to_vec(), Some(Ok(())))
    );
    assert_eq!(run(vec![piece(b"ab")]), (b"ab".to_vec(), None));
    assert_eq!(
        run(vec![piece(b"ab"), (DownloadEvent::Piece(vec![1]), true), (DownloadEvent::Ended, false)]),
        (b"ab".to_vec(), Some(Err("已停止下载".into())))
    );
    assert_eq!(
        run(vec![piece(b"a"), (DownloadEvent::Stopped, false), (DownloadEvent::Ended, false)]),
        (b"a".to_vec(), Some(Err("已停止下载".into())))
    );
    assert_eq!(
        run(vec![piece(b"a"), (DownloadEvent::Broken("gone".into()), false), (DownloadEvent::Stopped, false)]),
        (b"a".to_vec(), Some(Err("读取下载流失败: gone".into())))
    );
}

#[test]
fn downloads_are_cancelled_once() {
    let mut running: Shelf<u8> = Shelf::new();
    running.insert("id", 7);
    assert_eq!(cancel_download(&mut running, "id"), Ok(7));
    assert_eq!(cancel_download(&mut running, "id"), Err("该下载任务已结束或不存在".into()));
}

#[test]
fn covers_are_fetched_from_the_web() {
    let request = cover_request(&track(None, Some(r#"{"downloadHeaders":{"Referer":"r"}}"#))).unwrap();
    assert_eq!(request.url, "https://x/cover.jpg");
    assert_eq!(
        request.headers,
        vec![("user-agent".to_string(), ARTWORK_UA.to_string()), ("Referer".to_string(), "r".to_string())]
    );
    let mut local = track(None, None);
    local.artwork_url = "localart://localhost/1".into();
    assert!(cover_request(&local).is_none());
    local.artwork_url = "  ".into();
    assert!(cover_request(&local).is_none());
    assert_eq!(fetched_cover(vec![0; 15]), None);
    assert_eq!(fetched_cover(vec![0; 16]), Some(vec![0; 16]));
}

#[test]
fn histories_are_written_and_read() {
    let records = read_history(Some(r#"[{"id":1},"x"]"#)).unwrap();
    assert_eq!(records.len(), 2);
    let bytes = write_history(&records).unwrap();
    assert_eq!(String::from_utf8(bytes.clone()).unwrap(), "[\n  {\n    \"id\": 1\n  },\n  \"x\"\n]");
    assert_eq!(read_history(Some(std::str::from_utf8(&bytes).unwrap())).unwrap(), records);
    assert_eq!(
        read_history(Some("{}")).unwrap_err(),
        "下载记录文件损坏: invalid type: map, expected a sequence at line 1 column 0"
    );
    assert!(read_history(None).unwrap().is_empty());
    assert_eq!(write_history(&vec![]).unwrap(), b"[]");
}

#[test]
fn histories_come_back_up_to_the_nesting_limit() {
    let nested = |depth: usize| format!("[{}-7{}]", "[".repeat(depth), "]".repeat(depth));
    let records = read_history(Some(&nested(126))).unwrap();
    let text = String::from_utf8(write_history(&records).unwrap()).unwrap();
    assert_eq!(read_history(Some(&text)).unwrap(), records);
    assert!(read_history(Some(&nested(127))).is_err());
    let texts = read_history(Some(
        r#"[{"b":"\u0000\"\\\n晴🎵","a":[18446744073709551615,-9223372036854775808,null,true]}]"#,
    ))
    .unwrap();
    let text = String::from_utf8(write_history(&texts).unwrap()).unwrap();
    assert_eq!(read_history(Some(&text)).unwrap(), texts);
}
