use litemusicdl::local::{local_track, LocalFile};
use litemusicdl::tags::{duration_ms, local_artwork, song_texts, write_tags};
use lofty::config::WriteOptions;
use lofty::file::{AudioFile, FileType, TaggedFile, TaggedFileExt};
use lofty::picture::{MimeType, Picture, PictureType};
use lofty::prelude::Accessor;
use lofty::probe::Probe;
use lofty::properties::FileProperties;
use lofty::tag::{Tag, TagType};
use std::io::Cursor;

fn tagged(kind: FileType, tags: Vec<Tag>) -> TaggedFile {
    TaggedFile::new(kind, FileProperties::default(), tags)
}

fn picture(kind: PictureType, mime: Option<MimeType>, data: &[u8]) -> Picture {
    let builder = Picture::unchecked(data.to_vec()).pic_type(kind);
    match mime {
        Some(mime) => builder.mime_type(mime).build(),
        None => builder.build(),
    }
}

fn minimal_wav() -> Vec<u8> {
    let mut data = Vec::new();
    data.extend_from_slice(b"RIFF");
    data.extend_from_slice(&0u32.to_le_bytes()); // size patched below
    data.extend_from_slice(b"WAVE");
    data.extend_from_slice(b"fmt ");
    data.extend_from_slice(&16u32.to_le_bytes()); // fmt chunk size
    data.extend_from_slice(&1u16.to_le_bytes()); // PCM
    data.extend_from_slice(&1u16.to_le_bytes()); // channels
    data.extend_from_slice(&8000u32.to_le_bytes()); // sample rate
    data.extend_from_slice(&8000u32.to_le_bytes()); // byte rate
    data.extend_from_slice(&1u16.to_le_bytes()); // block align
    data.extend_from_slice(&8u16.to_le_bytes()); // bits per sample
    data.extend_from_slice(b"data");
    data.extend_from_slice(&4u32.to_le_bytes()); // data size
    data.extend_from_slice(&[0, 0, 0, 0]);
    let total = data.len() as u32;
    data[4..8].copy_from_slice(&(total - 8).to_le_bytes());
    data
}

fn read(bytes: Vec<u8>) -> TaggedFile {
    Probe::new(Cursor::new(bytes)).guess_file_type().unwrap().read().expect("should read back the written file")
}

#[test]
fn writes_title_artist_album() {
    let mut file = read(minimal_wav());
    assert!(write_tags(&mut file, "标题", "歌手", "专辑", None));
    let mut disk = Cursor::new(minimal_wav());
    let result = file.save_to(&mut disk, WriteOptions::default());
    assert!(result.is_ok(), "metadata write failed: {result:?}");
    let file = read(disk.into_inner());
    let tag = file.primary_tag().expect("should have a primary tag");
    assert_eq!(tag.title().as_deref(), Some("标题"));
    assert_eq!(tag.artist().as_deref(), Some("歌手"));
    assert_eq!(tag.album().as_deref(), Some("专辑"));
}

#[test]
fn written_songs_are_read_back() {
    let mut file = tagged(FileType::Wav, vec![]);
    assert!(write_tags(&mut file, " 标题 ", "歌手", "专辑", None));
    let tag = file.primary_tag().expect("should have a primary tag");
    assert_eq!(tag.title().as_deref(), Some("标题"));
    assert_eq!(tag.artist().as_deref(), Some("歌手"));
    assert_eq!(tag.album().as_deref(), Some("专辑"));
    let texts = song_texts(&file);
    assert_eq!(texts.title.as_deref(), Some("标题"));
    assert_eq!(texts.artist.as_deref(), Some("歌手"));
    assert_eq!(texts.album.as_deref(), Some("专辑"));
}

#[test]
fn blank_texts_are_not_written() {
    let mut tag = Tag::new(TagType::Id3v2);
    tag.set_title("old".into());
    tag.set_album("kept".into());
    let mut file = tagged(FileType::Mpeg, vec![tag]);
    assert!(write_tags(&mut file, "new", " ", "", None));
    let texts = song_texts(&file);
    assert_eq!(texts.title.as_deref(), Some("new"));
    assert_eq!(texts.artist, None);
    assert_eq!(texts.album.as_deref(), Some("kept"));
}

#[test]
fn the_preferred_tag_is_written_and_read() {
    let mut other = Tag::new(TagType::Id3v1);
    other.set_title("one".into());
    let mut preferred = Tag::new(TagType::Id3v2);
    preferred.set_title("two".into());
    let mut file = tagged(FileType::Mpeg, vec![other, preferred]);
    assert_eq!(song_texts(&file).title.as_deref(), Some("two"));
    write_tags(&mut file, "three", "", "", None);
    assert_eq!(file.tags()[0].title().as_deref(), Some("one"));
    assert_eq!(file.tags()[1].title().as_deref(), Some("three"));
}

#[test]
fn the_first_tag_stands_in() {
    let mut other = Tag::new(TagType::Id3v1);
    other.set_title("one".into());
    let mut file = tagged(FileType::Mpeg, vec![other]);
    write_tags(&mut file, "two", "who", "", None);
    assert_eq!(file.tags().len(), 1);
    assert_eq!(song_texts(&file).title.as_deref(), Some("two"));
    assert_eq!(song_texts(&file).artist.as_deref(), Some("who"));
}

#[test]
fn some_tags_have_no_place_for_an_album() {
    let mut file = tagged(FileType::Aiff, vec![Tag::new(TagType::AiffText)]);
    write_tags(&mut file, "title", "artist", "album", None);
    let texts = song_texts(&file);
    assert_eq!(texts.title.as_deref(), Some("title"));
    assert_eq!(texts.artist.as_deref(), Some("artist"));
    assert_eq!(texts.album, None);
}

#[test]
fn covers_replace_front_covers() {
    let mut tag = Tag::new(TagType::Id3v2);
    tag.push_picture(picture(PictureType::CoverFront, None, b"old"));
    tag.push_picture(picture(PictureType::CoverBack, None, b"back"));
    let mut file = tagged(FileType::Mpeg, vec![tag]);
    let cover = [0xff, 0xd8, 0xff, 0x01];
    write_tags(&mut file, "", "", "", Some(&cover));
    let pictures = file.tags()[0].pictures();
    assert_eq!(pictures.len(), 2);
    assert_eq!(pictures[0].data(), b"back");
    assert_eq!(pictures[1].pic_type(), PictureType::CoverFront);
    assert_eq!(pictures[1].mime_type(), Some(&MimeType::Jpeg));
    assert_eq!(pictures[1].data(), &cover);
    write_tags(&mut file, "", "", "", Some(b"no image"));
    assert_eq!(file.tags()[0].pictures().len(), 2);
}

#[test]
fn front_covers_are_preferred() {
    let mut first = Tag::new(TagType::Id3v2);
    first.push_picture(picture(PictureType::Band, Some(MimeType::Png), b"band"));
    let mut second = Tag::new(TagType::Id3v1);
    second.push_picture(picture(PictureType::CoverFront, Some(MimeType::Unknown("image/jpg".into())), b"front"));
    let file = tagged(FileType::Mpeg, vec![first.clone(), second]);
    let art = local_artwork(&file).unwrap();
    assert_eq!(art.bytes, b"front");
    assert_eq!(art.content_type, "image/jpeg");
    let art = local_artwork(&tagged(FileType::Mpeg, vec![first])).unwrap();
    assert_eq!(art.bytes, b"band");
    assert_eq!(art.content_type, "image/png");
    assert!(local_artwork(&tagged(FileType::Mpeg, vec![])).is_none());
    let mut odd = Tag::new(TagType::Id3v2);
    odd.push_picture(picture(PictureType::CoverFront, None, b"odd"));
    assert!(local_artwork(&tagged(FileType::Mpeg, vec![odd])).is_none());
}

#[test]
fn tags_tell_more_than_names() {
    let mut tag = Tag::new(TagType::Id3v2);
    tag.set_title("tagged".into());
    tag.set_artist("  ".into());
    tag.set_album("album".into());
    let tagged_file = tagged(FileType::Mpeg, vec![tag]);
    let file = LocalFile { extension: Some("mp3".into()), stem: Some("who - what".into()), path: "/p.mp3".into() };
    let (track, _) = local_track(&file, Some(b"no magic"), Some(&tagged_file)).unwrap();
    assert_eq!(track.title, "tagged");
    assert_eq!(track.artist, "who");
    assert_eq!(track.album, "album");
    assert_eq!(track.audio_url, "/p.mp3");
    assert_eq!(duration_ms(&tagged_file), 0);
}

#[test]
fn durations_are_told_in_milliseconds() {
    let properties = FileProperties::new(
        std::time::Duration::from_millis(61_500),
        None,
        None,
        None,
        None,
        None,
        None,
    );
    let file = TaggedFile::new(FileType::Mpeg, properties, vec![]);
    assert_eq!(duration_ms(&file), 61_500);
}

#[test]
fn every_known_format_has_its_kind_of_tag() {
    let expected = [
        (FileType::Aac, TagType::Id3v2),
        (FileType::Aiff, TagType::Id3v2),
        (FileType::Ape, TagType::Ape),
        (FileType::Flac, TagType::VorbisComments),
        (FileType::Mpeg, TagType::Id3v2),
        (FileType::Mp4, TagType::Mp4Ilst),
        (FileType::Mpc, TagType::Ape),
        (FileType::Opus, TagType::VorbisComments),
        (FileType::Vorbis, TagType::VorbisComments),
        (FileType::Speex, TagType::VorbisComments),
        (FileType::Wav, TagType::Id3v2),
        (FileType::WavPack, TagType::Ape),
    ];
    for (format, kind) in expected {
        let mut file = tagged(format, vec![]);
        assert!(write_tags(&mut file, "title", "artist", "album", None));
        assert_eq!(file.tags().len(), 1);
        assert_eq!(file.tags()[0].tag_type(), kind);
        assert_eq!(song_texts(&file).album.as_deref(), Some("album"));
    }
}

#[test]
fn formats_from_outside_prefer_no_tag() {
    let mut empty = tagged(FileType::Custom("unheard-of"), vec![]);
    assert_eq!(song_texts(&empty).title, None);
    assert!(!write_tags(&mut empty, "title", "artist", "album", None));
    assert!(empty.tags().is_empty());
    let mut tag = Tag::new(TagType::Id3v2);
    tag.set_title("one".into());
    let mut file = tagged(FileType::Custom("unheard-of"), vec![tag]);
    assert_eq!(song_texts(&file).title.as_deref(), Some("one"));
    assert!(write_tags(&mut file, "two", "", "", None));
    assert_eq!(song_texts(&file).title.as_deref(), Some("two"));
}
