use litemusicdl::catalog::{
    batch_size, merge_results, plan_resolve, plan_search, quality_source, resolve_step, search_again, show_qualities,
    show_quality, ResolvePlan, ResolveStep, SearchPlan,
};
use litemusicdl::domain::Track;
use litemusicdl::json::parse_json;
use litemusicdl::sources::{descriptor, find_source, list_sources, registry, resolve_searched, Source};

fn track(source: &str, url: &str) -> Track {
    Track {
        id: "x:1".into(),
        source: source.into(),
        title: "t".into(),
        artist: String::new(),
        album: String::new(),
        artwork_url: String::new(),
        audio_url: url.into(),
        duration_ms: 0,
        format: None,
        quality: None,
        adapter_payload: None,
    }
}

#[test]
fn sources_are_listed() {
    assert_eq!(registry(), vec![Source::Qq, Source::Kuwo, Source::Netease, Source::Migu]);
    let listed = list_sources();
    let ids: Vec<&str> = listed.iter().map(|source| source.id).collect();
    assert_eq!(ids, vec!["QQMusicClient", "KuwoMusicClient", "NeteaseMusicClient", "MiguMusicClient"]);
    assert_eq!(descriptor(Source::Netease).name, "网易云音乐");
    assert_eq!(descriptor(Source::Migu).capabilities, ["search", "stream", "download", "lyrics"]);
    let enabled: Vec<bool> = listed.iter().map(|source| source.enabled).collect();
    assert_eq!(enabled, vec![true, true, false, false]);
    assert!(descriptor(Source::Qq).enabled);
    assert!(descriptor(Source::Kuwo).enabled);
    assert!(!descriptor(Source::Netease).enabled);
    assert!(!descriptor(Source::Migu).enabled);
    assert_eq!(find_source("KuwoMusicClient"), Some(Source::Kuwo));
    assert_eq!(find_source("LocalMusicClient"), None);
}

#[test]
fn searches_are_planned() {
    assert!(matches!(plan_search("  ", &vec![], 5, 1), SearchPlan::Nothing));
    assert!(matches!(
        plan_search("x", &vec!["nobody".into()], 5, 1),
        SearchPlan::Refused(m) if m == "没有选中已实现的 Rust 音源适配器"
    ));
    match plan_search(" 晴天 ", &vec!["MiguMusicClient".into(), "QQMusicClient".into()], 0, 0) {
        SearchPlan::Ask { query, sources, limit, page } => {
            assert_eq!(query, "晴天");
            assert_eq!(sources, vec![Source::Qq, Source::Migu]);
            assert_eq!((limit, page), (1, 1));
        }
        other => panic!("{other:?}"),
    }
    match plan_search("x", &vec![], 30, 2) {
        SearchPlan::Ask { sources, limit, page, .. } => {
            assert_eq!(sources, registry());
            assert_eq!((limit, page), (30, 2));
        }
        other => panic!("{other:?}"),
    }
}

#[test]
fn failed_searches_are_tried_once_more() {
    assert!(search_again(0, &Err("e".into())));
    assert!(!search_again(1, &Err("e".into())));
    assert!(!search_again(0, &Ok(vec![])));
}

#[test]
fn failures_hide_nothing() {
    let merged = merge_results(vec![
        (Source::Qq, Err("down".into())),
        (Source::Kuwo, Ok(vec![track("a", ""), track("b", "")])),
        (Source::Migu, Ok(vec![track("c", "")])),
    ])
    .unwrap();
    let names: Vec<&str> = merged.iter().map(|track| track.source.as_str()).collect();
    assert_eq!(names, vec!["a", "b", "c"]);
    let error = merge_results(vec![
        (Source::Qq, Err("down".into())),
        (Source::Kuwo, Ok(vec![])),
        (Source::Migu, Err("gone".into())),
    ])
    .unwrap_err();
    assert_eq!(error, "QQ音乐: down\n咪咕音乐: gone");
    assert!(merge_results(vec![(Source::Qq, Ok(vec![]))]).unwrap().is_empty());
}

#[test]
fn qualities_are_asked_for_and_shown() {
    assert_eq!(quality_source(&track("QQMusicClient", " ")), Some(Source::Qq));
    assert_eq!(quality_source(&track("QQMusicClient", "http://x")), None);
    assert_eq!(quality_source(&track("nobody", "")), None);
    let mut local = track("QQMusicClient", "");
    local.adapter_payload = Some(parse_json(br#"{"localPath":"/m/a.mp3"}"#).unwrap());
    assert_eq!(quality_source(&local), None);
    let shown = show_quality(track("QQMusicClient", ""), Some(("无损".into(), "FLAC".into())));
    assert_eq!((shown.quality.as_deref(), shown.format.as_deref()), (Some("无损"), Some("FLAC")));
    assert_eq!(show_quality(track("a", ""), None).quality, None);
    let all = show_qualities(
        vec![track("a", "1"), track("b", "2"), track("c", "3")],
        vec![None, Some(("320K".into(), "MP3".into())), None],
    );
    let urls: Vec<&str> = all.iter().map(|track| track.audio_url.as_str()).collect();
    assert_eq!(urls, vec!["1", "2", "3"]);
    assert_eq!((all[0].quality.as_deref(), all[2].format.as_deref()), (None, None));
    assert_eq!((all[1].quality.as_deref(), all[1].format.as_deref()), (Some("320K"), Some("MP3")));
    assert!(show_qualities(vec![], vec![]).is_empty());
    assert_eq!((batch_size(3), batch_size(6), batch_size(7)), (3, 6, 6));
}

#[test]
fn songs_are_resolved_before_an_action() {
    assert!(matches!(plan_resolve(&track("nobody", "http://x")), ResolvePlan::Ready));
    assert!(matches!(plan_resolve(&track("MiguMusicClient", "")), ResolvePlan::Ask(Source::Migu)));
    assert!(matches!(
        plan_resolve(&track("nobody", "")),
        ResolvePlan::Refused(m) if m == "未找到 nobody 的音源适配器"
    ));
    assert!(matches!(resolve_step(None, Err("one".into())), ResolveStep::Again(m) if m == "one"));
    assert!(matches!(resolve_step(Some("one".into()), Err("two".into())), ResolveStep::Done(Err(m)) if m == "one"));
    assert!(matches!(resolve_step(Some("one".into()), Ok(track("a", "u"))), ResolveStep::Done(Ok(t)) if t.audio_url == "u"));
    assert_eq!(resolve_searched(&track("a", "u")).unwrap().audio_url, "u");
    assert_eq!(resolve_searched(&track("a", "\t")).unwrap_err(), "该音源暂时未能解析该歌曲的播放地址");
}
