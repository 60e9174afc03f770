use litemusicdl::artwork::LocalArtwork;
use litemusicdl::local::{
    decode_local_lyrics, local_lyrics, local_lyrics_path, local_path, local_track, song_in_file, visit, FileTags,
    LocalFile, Neighbour, Visit,
};
use litemusicdl::media::{has_audio_magic, is_lyric_file};
use litemusicdl::playback::{finish_scan, sort_by_title};
use litemusicdl::shelf::Shelf;

fn file(stem: &str, extension: &str) -> LocalFile {
    LocalFile {
        extension: Some(extension.into()),
        stem: Some(stem.into()),
        path: format!("/music/{stem}.{extension}"),
    }
}

#[test]
fn rejects_plain_text_renamed_as_audio() {
    let contents: &[u8] = b"just a plain text file";
    assert!(!is_lyric_file(Some("mp3"), Some(contents)));
    assert!(!has_audio_magic(contents));
    // A file that cannot be parsed and is without audio magic must not become a song.
    assert!(local_track(&file("fake2", "mp3"), Some(contents), None).is_none());
}

#[test]
fn finds_case_insensitive_companion_lrc() {
    let neighbours = vec![
        Neighbour { is_file: true, extension: Some("flac".into()), same_stem: true },
        Neighbour { is_file: true, extension: Some("LRC".into()), same_stem: false },
        Neighbour { is_file: false, extension: Some("lrc".into()), same_stem: true },
        Neighbour { is_file: true, extension: Some("LRC".into()), same_stem: true },
        Neighbour { is_file: true, extension: Some("lrc".into()), same_stem: true },
    ];
    assert_eq!(local_lyrics_path(&neighbours), Some(4));
    assert_eq!(local_lyrics_path(&neighbours.into_iter().take(4).collect()), Some(3));
    assert_eq!(local_lyrics_path(&vec![]), None);
}

#[test]
fn names_of_files_tell_artist_and_title() {
    let (track, artwork) = local_track(&file(" A - B - C ", "MP3"), Some(b"ID3"), None).unwrap();
    assert!(artwork.is_none());
    assert_eq!(track.id, "local:/music/ A - B - C .MP3");
    assert_eq!(track.source, "LocalMusicClient");
    assert_eq!(track.artist, "A");
    assert_eq!(track.title, "B - C");
    assert_eq!(track.format.as_deref(), Some("MP3"));
    assert_eq!(track.duration_ms, 0);
    assert_eq!(track.adapter_payload.as_ref().unwrap().get("extension").unwrap().as_str(), Some("mp3"));
    assert_eq!(local_path(&track).as_deref(), Some("/music/ A - B - C .MP3"));
    let (track, _) = local_track(&file(" plain ", "flac"), Some(b"fLaC"), None).unwrap();
    assert_eq!(track.title, " plain ");
    assert_eq!(track.artist, "");
}

#[test]
fn what_was_read_tells_more_than_names() {
    let read = FileTags {
        title: Some("told".into()),
        artist: None,
        album: Some("album".into()),
        duration_ms: 7,
        artwork: Some(LocalArtwork { content_type: "image/png".into(), bytes: vec![1] }),
    };
    let (track, artwork) = song_in_file(&file("who - what", "mp3"), None, Some(read)).unwrap();
    assert_eq!((track.title.as_str(), track.artist.as_str(), track.album.as_str()), ("told", "who", "album"));
    assert_eq!((track.duration_ms, artwork.unwrap().bytes), (7, vec![1]));
    assert!(song_in_file(&file("who - what", "mp3"), None, None).is_none());
    assert_eq!(song_in_file(&file("who - what", "mp3"), Some(b"ID3"), None).unwrap().0.title, "what");
}

#[test]
fn files_without_names_are_no_songs() {
    let nameless = LocalFile { extension: None, stem: Some("x".into()), path: "/x".into() };
    assert!(local_track(&nameless, Some(b"ID3"), None).is_none());
    let stemless = LocalFile { extension: Some("mp3".into()), stem: None, path: "/x".into() };
    assert!(local_track(&stemless, Some(b"ID3"), None).is_none());
    assert!(local_track(&file("x", "mp3"), None, None).is_none());
}

#[test]
fn scans_visit_entries() {
    assert_eq!(visit(true, true, false, None), Visit::Skip);
    assert_eq!(visit(false, true, false, None), Visit::Descend);
    assert_eq!(visit(false, false, true, Some("Opus")), Visit::Consider);
    assert_eq!(visit(false, false, true, Some("lrc")), Visit::Skip);
    assert_eq!(visit(false, false, false, Some("mp3")), Visit::Skip);
}

#[test]
fn lyrics_are_decoded() {
    assert_eq!(decode_local_lyrics("[00:01.00]词".as_bytes().to_vec()), Ok("[00:01.00]词".into()));
    let mut little = vec![0xff, 0xfe];
    let mut big = vec![0xfe, 0xff];
    for unit in "词😀".encode_utf16() {
        little.extend(unit.to_le_bytes());
        big.extend(unit.to_be_bytes());
    }
    assert_eq!(decode_local_lyrics(little.clone()), Ok("词😀".into()));
    assert_eq!(decode_local_lyrics(big), Ok("词😀".into()));
    little.push(0x41);
    assert_eq!(decode_local_lyrics(little), Ok("词😀".into()));
    assert_eq!(
        decode_local_lyrics(vec![0xff, 0xfe, 0x00, 0xd8]),
        Err("本地歌词编码无效: invalid utf-16: lone surrogate found".into())
    );
    assert_eq!(
        decode_local_lyrics(vec![0xd6, 0xd0]),
        Err("本地歌词不是 UTF-8 或 UTF-16: invalid utf-8 sequence of 1 bytes from index 0".into())
    );
}

#[test]
fn blank_lyrics_are_none() {
    assert_eq!(local_lyrics(b" \n".to_vec()), Ok(None));
    assert_eq!(local_lyrics(b"x".to_vec()), Ok(Some("x".into())));
    assert!(local_lyrics(vec![0x80]).is_err());
}

#[test]
fn scans_are_sorted_and_shown() {
    let song = |title: &str, art: bool| {
        let (mut track, _) = local_track(&file("x", "mp3"), Some(b"ID3"), None).unwrap();
        track.title = title.into();
        let artwork = if art {
            Some(LocalArtwork { content_type: "image/png".into(), bytes: vec![1, 2] })
        } else {
            None
        };
        (track, artwork)
    };
    let scanned = vec![song("b", true), song("Á", false), song("B", true), song("a", false)];
    let sorted = sort_by_title(scanned);
    let titles: Vec<&str> = sorted.iter().map(|(track, _)| track.title.as_str()).collect();
    assert_eq!(titles, vec!["a", "b", "B", "Á"]);
    let mut shelf = Shelf::new();
    shelf.register(LocalArtwork { content_type: "image/gif".into(), bytes: vec![9] });
    let tracks = finish_scan(&mut shelf, sorted);
    assert_eq!(tracks[0].artwork_url, "");
    assert_eq!(tracks[1].artwork_url, "localart://localhost/2");
    assert_eq!(tracks[2].artwork_url, "localart://localhost/3");
    assert!(shelf.get("1").is_none());
    assert_eq!(shelf.get("2").unwrap().bytes, vec![1, 2]);
}
