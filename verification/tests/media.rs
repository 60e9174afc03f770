use litemusicdl::artwork::{
    first_sidecar, local_artwork_from_bytes, lone_image, sidecar_artwork, sidecar_names, sidecar_type,
};
use litemusicdl::domain::Track;
use litemusicdl::media::{
    has_audio_magic, is_audio_path, is_document, is_lyric_file, is_text_like, media_content_type, sniff_image_type,
    stream_content_type,
};
use reqwest::header::{HeaderMap, HeaderValue, CONTENT_TYPE};

fn track(format: Option<&str>, url: &str) -> Track {
    Track {
        id: String::new(),
        source: String::new(),
        title: String::new(),
        artist: String::new(),
        album: String::new(),
        artwork_url: String::new(),
        audio_url: url.into(),
        duration_ms: 0,
        format: format.map(|text| text.to_owned()),
        quality: None,
        adapter_payload: None,
    }
}

fn typed(kind: &str) -> HeaderMap {
    let mut headers = HeaderMap::new();
    headers.insert(CONTENT_TYPE, HeaderValue::from_str(kind).unwrap());
    headers
}

#[test]
fn sniffs_embedded_image_types() {
    assert_eq!(sniff_image_type(&[0xff, 0xd8, 0xff, 0xdb, 0x00, 0x00]), Some("image/jpeg"));
    assert_eq!(
        sniff_image_type(&[0x89, 0x50, 0x4e, 0x47, 0x0d, 0x0a, 0x1a, 0x0a]),
        Some("image/png")
    );
    assert_eq!(sniff_image_type(&[0x00, 0x01, 0x02]), None);
}

#[test]
fn sniffs_other_image_types() {
    assert_eq!(sniff_image_type(b"GIF87a"), Some("image/gif"));
    assert_eq!(sniff_image_type(b"GIF89a.."), Some("image/gif"));
    assert_eq!(sniff_image_type(b"RIFF....WEBP"), Some("image/webp"));
    assert_eq!(sniff_image_type(b"RIFF....WEB"), None);
    assert_eq!(sniff_image_type(b"BM"), Some("image/bmp"));
    assert_eq!(sniff_image_type(b""), None);
}

#[test]
fn excludes_gbk_lrc_renamed_as_audio() {
    assert!(is_lyric_file(Some("mp3"), Some(b"[00:01.00]\xd6\xd0\xce\xc4\xb8\xe8\xb4\xca")));
}

#[test]
fn excludes_utf8_bom_lrc_and_companion_types() {
    assert!(is_lyric_file(Some("lrc"), Some(b"\xef\xbb\xbf[00:01.00]lyric")));
    assert!(is_lyric_file(Some("mp3"), Some(b"\xef\xbb\xbf[00:01.00]lyric")));
    for extension in ["txt", "cue", "m3u", "nfo"] {
        assert!(is_lyric_file(Some(extension), Some(b"anything")), "{extension} should be excluded");
    }
    assert!(is_lyric_file(Some("PLS"), None));
}

#[test]
fn audio_magic_is_not_lyric() {
    let contents = b"ID3\x04\x00\x00\x00\x00\x00\x00tag";
    assert!(!is_lyric_file(Some("mp3"), Some(contents)));
    assert!(has_audio_magic(contents));
}

#[test]
fn audio_is_known_by_its_first_bytes() {
    assert!(has_audio_magic(b"fLaC"));
    assert!(has_audio_magic(b"OggS"));
    assert!(has_audio_magic(b"RIFF"));
    assert!(has_audio_magic(b"FORM"));
    assert!(has_audio_magic(b".snd"));
    assert!(has_audio_magic(b"\x00\x00\x00\x20ftypM4A"));
    assert!(has_audio_magic(&[0xff, 0xe0]));
    assert!(!has_audio_magic(&[0xff, 0xdf]));
    assert!(!has_audio_magic(&[0xff]));
    assert!(!has_audio_magic(b""));
}

#[test]
fn brackets_close_early_in_lyrics() {
    let mut bytes = vec![b'['];
    bytes.extend(vec![b'x'; 254]);
    bytes.push(b']');
    assert!(is_text_like(&bytes));
    bytes.insert(1, b'x');
    assert!(!is_text_like(&bytes));
    assert!(is_text_like(&[0xff, 0xfe]));
    assert!(is_text_like(&[0xfe, 0xff, 0x00]));
    assert!(!is_text_like(b"]["));
    assert!(!is_text_like(&[0xef, 0xbb, 0xbf]));
}

#[test]
fn audio_paths() {
    assert!(is_audio_path(Some("FLAC")));
    assert!(is_audio_path(Some("alac")));
    assert!(!is_audio_path(Some("lrc")));
    assert!(!is_audio_path(None));
}

#[test]
fn content_types_are_standardised() {
    let flac = track(Some("FLAC"), "");
    let mp3 = track(Some("MP3"), "");
    assert_eq!(media_content_type(&flac, &typed("audio/x-flac")), "audio/flac");
    assert_eq!(media_content_type(&mp3, &typed("Audio/X-WAV; rate=8")), "audio/wav");
    assert_eq!(media_content_type(&mp3, &typed("video/mp4")), "audio/mp4");
    assert_eq!(media_content_type(&flac, &typed("audio/x-ogg")), "audio/flac");
    assert_eq!(media_content_type(&track(Some("OGG"), ""), &typed("audio/x-ogg")), "audio/ogg");
    assert_eq!(media_content_type(&flac, &typed("audio/mpeg")), "audio/flac");
    assert_eq!(media_content_type(&mp3, &typed("audio/mpeg")), "audio/mpeg");
    assert_eq!(media_content_type(&mp3, &typed("audio/aac")), "audio/aac");
    assert_eq!(media_content_type(&mp3, &typed("application/octet-stream")), "audio/mpeg");
    assert_eq!(media_content_type(&track(None, "http://x/a.M4A?k=b.c"), &HeaderMap::new()), "audio/mp4");
    assert_eq!(media_content_type(&track(None, "http://x/a"), &HeaderMap::new()), "audio/mpeg");
    assert_eq!(stream_content_type(&mp3, Some("Audio/X-WAV; rate=8")), "audio/wav");
    assert_eq!(stream_content_type(&flac, None), "audio/flac");
}

#[test]
fn unreadable_types_count_as_missing() {
    let mut headers = HeaderMap::new();
    headers.insert(CONTENT_TYPE, HeaderValue::from_bytes(b"audio/\xff").unwrap());
    assert_eq!(media_content_type(&track(Some("wav"), ""), &headers), "audio/wav");
}

#[test]
fn documents_are_known_by_their_type() {
    assert!(is_document(Some("Text/HTML; charset=utf-8")));
    assert!(is_document(Some("application/json")));
    assert!(is_document(Some("application/xml")));
    assert!(is_document(Some("text/plain")));
    assert!(!is_document(Some("audio/mpeg")));
    assert!(!is_document(None));
}

#[test]
fn artwork_takes_the_type_of_its_bytes() {
    let art = local_artwork_from_bytes("image/png", vec![0xff, 0xd8, 0xff]).unwrap();
    assert_eq!(art.content_type, "image/jpeg");
    assert_eq!(art.bytes, vec![0xff, 0xd8, 0xff]);
    assert_eq!(local_artwork_from_bytes("image/jpg", vec![1]).unwrap().content_type, "image/jpeg");
    assert_eq!(local_artwork_from_bytes("image/webp", vec![1]).unwrap().content_type, "image/webp");
    assert!(local_artwork_from_bytes("image/tiff", vec![1]).is_none());
    assert!(local_artwork_from_bytes("image/png", vec![]).is_none());
    assert!(local_artwork_from_bytes("image/png", vec![1; 30 * 1024 * 1024]).is_some());
    assert!(local_artwork_from_bytes("image/png", vec![1; 30 * 1024 * 1024 + 1]).is_none());
}

#[test]
fn pictures_beside_a_file() {
    let names = sidecar_names("song");
    assert_eq!(names.len(), 16);
    assert_eq!(names[0], "song.jpg");
    assert_eq!(names[3], "song.webp");
    assert_eq!(names[4], "cover.jpg");
    assert_eq!(names[10], "folder.png");
    assert_eq!(names[15], "front.webp");
    assert_eq!(sidecar_type(Some("JPeG")), Some("image/jpeg"));
    assert_eq!(sidecar_type(Some("png")), Some("image/png"));
    assert_eq!(sidecar_type(Some("webp")), Some("image/webp"));
    assert_eq!(sidecar_type(Some("gif")), None);
    assert_eq!(sidecar_type(None), None);
    assert!(lone_image("song", &vec![Some("scan.png".into())]));
    assert!(!lone_image("song", &vec![Some("cover.jpg".into())]));
    assert!(!lone_image("song", &vec![Some("a.png".into()), Some("b.png".into())]));
    assert!(!lone_image("song", &vec![]));
    assert!(lone_image("song", &vec![None]));
    assert_eq!(sidecar_artwork(Some("PNG"), Some(vec![1, 2])).unwrap().content_type, "image/png");
    assert!(sidecar_artwork(Some("png"), None).is_none());
    assert!(sidecar_artwork(Some("txt"), Some(vec![1])).is_none());
}

#[test]
fn first_picture_beside_a_file_is_taken() {
    let found = first_sidecar(vec![
        (Some("jpg".into()), None),
        (Some("txt".into()), Some(vec![1])),
        (Some("png".into()), Some(vec![])),
        (Some("webp".into()), Some(vec![7, 8])),
        (Some("jpg".into()), Some(vec![9])),
    ])
    .unwrap();
    assert_eq!((found.content_type.as_str(), found.bytes.as_slice()), ("image/webp", &[7u8, 8][..]));
    assert!(first_sidecar(vec![(None, Some(vec![1])), (Some("png".into()), None)]).is_none());
    assert!(first_sidecar(vec![]).is_none());
}
