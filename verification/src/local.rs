//! A collection of music on the local disk.
use crate::artwork::{opt_artwork, ArtworkView, LocalArtwork};
use crate::domain::{Track, TrackView};
use crate::json::{as_text, field, fields_view, no_fields, put, record, text_at, text_value, JsonView};
use crate::media::{has_audio_magic, is_audio_path, is_audio_extension, is_companion, is_lyric_file, looks_like_audio, marked};
use crate::sources::{keep_words, unless_blank};
use crate::tags::{self, chosen_tag, embedded_artwork, file_contents, FileView};
use crate::text::{self, in_capitals, is_blank, lowered, opt, opt_str, split_first, trimmed, utf16_complaint, utf16_decoded, utf8_complaint};
use vstd::prelude::*;

verus! {

// ---------------------------------------------------------------------------
// Scanning
// ---------------------------------------------------------------------------

/// What the scan does with an entry of a directory.
#[derive(Debug, Clone, Copy, PartialEq, Eq, Structural)]
pub enum Visit {
    /// Leave it out.
    Skip,
    /// Scan it as a directory.
    Descend,
    /// See whether it is a song.
    Consider,
}

/// What the scan does with an entry: links are left out, directories are
/// scanned, and files with the extension of audio are looked at.
pub open spec fn visit_of(symlink: bool, directory: bool, file: bool, extension: Option<Seq<char>>) -> Visit {
    if symlink {
        Visit::Skip
    } else if directory {
        Visit::Descend
    } else if file && extension is Some && is_audio_extension(lowered(extension->0)) {
        Visit::Consider
    } else {
        Visit::Skip
    }
}

/// Decides what the scan does with an entry of a directory.
pub fn visit(symlink: bool, directory: bool, file: bool, extension: Option<&str>) -> (result: Visit)
    ensures
        result == visit_of(symlink, directory, file, opt_str(extension)),
{
    if symlink {
        Visit::Skip
    } else if directory {
        Visit::Descend
    } else if file && is_audio_path(extension) {
        Visit::Consider
    } else {
        Visit::Skip
    }
}

/// What the path of a file tells: its extension, its name without it, and the
/// whole of it.
#[derive(Debug)]
pub struct LocalFile {
    pub extension: Option<String>,
    pub stem: Option<String>,
    pub path: String,
}

/// The artist and the title that the name of a file tells.
pub open spec fn names_in_stem(stem: Seq<char>) -> (Seq<char>, Seq<char>) {
    match split_first(stem, " - "@) {
        Some((artist, title)) => (trimmed(artist), trimmed(title)),
        None => (Seq::empty(), stem),
    }
}

/// A text of the tags, or else another.
pub open spec fn told_or(told: Option<Seq<char>>, other: Seq<char>) -> Seq<char> {
    match told {
        Some(text) => text,
        None => other,
    }
}

/// What is kept with a local track.
pub open spec fn local_payload(path: Seq<char>, extension: Seq<char>) -> JsonView {
    JsonView::Record(seq![("localPath"@, JsonView::Text(path)), ("extension"@, JsonView::Text(extension))])
}

/// What was read of a file: the texts of its tags that are not blank, how long
/// it plays, and the artwork in it.
#[derive(Debug)]
pub struct FileTags {
    pub title: Option<String>,
    pub artist: Option<String>,
    pub album: Option<String>,
    pub duration_ms: u64,
    pub artwork: Option<LocalArtwork>,
}

/// The mathematical value of [`FileTags`].
#[verifier::ext_equal]
pub struct TagsView {
    pub title: Option<Seq<char>>,
    pub artist: Option<Seq<char>>,
    pub album: Option<Seq<char>>,
    pub duration_ms: u64,
    pub artwork: Option<ArtworkView>,
}

impl View for FileTags {
    type V = TagsView;

    open spec fn view(&self) -> TagsView {
        TagsView {
            title: opt(self.title),
            artist: opt(self.artist),
            album: opt(self.album),
            duration_ms: self.duration_ms,
            artwork: opt_artwork(self.artwork),
        }
    }
}

/// What is read of a file that the tag library knows.
pub open spec fn tags_of(file: FileView) -> TagsView {
    let tag = chosen_tag(file);
    TagsView {
        title: match tag {
            Some(tag) => unless_blank(tag.title),
            None => None,
        },
        artist: match tag {
            Some(tag) => unless_blank(tag.artist),
            None => None,
        },
        album: match tag {
            Some(tag) => unless_blank(tag.album),
            None => None,
        },
        duration_ms: if file.millis <= u64::MAX {
            file.millis as u64
        } else {
            u64::MAX
        },
        artwork: embedded_artwork(file),
    }
}

/// Reads what a file tells.
pub fn read_tags(file: &lofty::file::TaggedFile) -> (result: FileTags)
    ensures
        result@ == tags_of(file_contents(*file)),
{
    let texts = tags::song_texts(file);
    FileTags {
        title: texts.title,
        artist: texts.artist,
        album: texts.album,
        duration_ms: tags::duration_ms(file),
        artwork: tags::local_artwork(file),
    }
}

/// The track of a file: its tags tell more than its name.
pub open spec fn track_of_file(
    extension: Seq<char>,
    stem: Seq<char>,
    path: Seq<char>,
    tags: Option<TagsView>,
) -> TrackView {
    let (artist, title) = names_in_stem(stem);
    TrackView {
        id: "local:"@ + path,
        source: "LocalMusicClient"@,
        title: match tags {
            Some(tags) => told_or(tags.title, title),
            None => title,
        },
        artist: match tags {
            Some(tags) => told_or(tags.artist, artist),
            None => artist,
        },
        album: match tags {
            Some(tags) => told_or(tags.album, Seq::empty()),
            None => Seq::empty(),
        },
        artwork_url: Seq::empty(),
        audio_url: path,
        duration_ms: match tags {
            Some(tags) => tags.duration_ms,
            None => 0,
        },
        format: Some(in_capitals(lowered(extension))),
        quality: None,
        adapter_payload: Some(local_payload(path, lowered(extension))),
    }
}

/// What the tags tell counts before the name of the file, whatever that is: a
/// title, an artist and an album in the tags are those of the track. What the
/// tags do not tell, the name of the file does.
pub proof fn tags_count_before_the_name(
    extension: Seq<char>,
    stem: Seq<char>,
    path: Seq<char>,
    tags: TagsView,
    words: Seq<char>,
)
    ensures
        tags.title == Some(words) ==> track_of_file(extension, stem, path, Some(tags)).title == words,
        tags.artist == Some(words) ==> track_of_file(extension, stem, path, Some(tags)).artist == words,
        tags.album == Some(words) ==> track_of_file(extension, stem, path, Some(tags)).album == words,
        tags.title is None ==> track_of_file(extension, stem, path, Some(tags)).title == track_of_file(
            extension,
            stem,
            path,
            None,
        ).title,
        tags.artist is None ==> track_of_file(extension, stem, path, Some(tags)).artist == track_of_file(
            extension,
            stem,
            path,
            None,
        ).artist,
        tags.album is None ==> track_of_file(extension, stem, path, Some(tags)).album.len() == 0,
        track_of_file(extension, stem, path, Some(tags)).duration_ms == tags.duration_ms,
        track_of_file(extension, stem, path, None).duration_ms == 0,
        track_of_file(extension, stem, path, None).album.len() == 0,
{
}

/// What is read of the tags is what they hold, unless it is blank.
pub proof fn tags_are_read(file: FileView, tag: tags::TagView, words: Seq<char>, i: int)
    requires
        chosen_tag(file) == Some(tag),
        0 <= i < words.len(),
        !text::is_space(words[i]),
    ensures
        tag.title == Some(words) ==> tags_of(file).title == Some(words),
        tag.artist == Some(words) ==> tags_of(file).artist == Some(words),
        tag.album == Some(words) ==> tags_of(file).album == Some(words),
        tag.title is None ==> tags_of(file).title is None,
        tag.artist is None ==> tags_of(file).artist is None,
        tag.album is None ==> tags_of(file).album is None,
        file.millis <= u64::MAX ==> tags_of(file).duration_ms == file.millis,
        tags_of(file).artwork == embedded_artwork(file),
{
}

/// The name of a file tells the artist and the title around its first hyphen
/// between spaces, and the title alone where there is none.
pub proof fn names_tell_artist_and_title(
    extension: Seq<char>,
    stem: Seq<char>,
    path: Seq<char>,
)
    ensures
        split_first(stem, " - "@) matches Some((artist, title)) ==> track_of_file(extension, stem, path, None).artist
            == trimmed(artist) && track_of_file(extension, stem, path, None).title == trimmed(title),
        !text::contains_text(stem, " - "@) ==> track_of_file(extension, stem, path, None).title == stem && track_of_file(
            extension,
            stem,
            path,
            None,
        ).artist.len() == 0,
        text::contains_text(stem, " - "@) ==> split_first(stem, " - "@) is Some,
{
    text::split_first_puts_together(stem, " - "@);
}

/// The track of a file is a local one that plays the file: its address is the
/// path, its identifier holds it, and its format is the extension in capital
/// letters.
pub proof fn files_become_local_tracks(extension: Seq<char>, stem: Seq<char>, path: Seq<char>, tags: Option<TagsView>)
    ensures
        track_of_file(extension, stem, path, tags).audio_url == path,
        text::without_prefix(track_of_file(extension, stem, path, tags).id, "local:"@) == Some(path),
        track_of_file(extension, stem, path, tags).source == "LocalMusicClient"@,
        text::all_ascii(extension) ==> track_of_file(extension, stem, path, tags).format == Some(text::raised(extension)),
        track_of_file(extension, stem, path, tags).quality is None,
        crate::sources::source_with(track_of_file(extension, stem, path, tags).source) is None,
{
    text::prefixes_are_taken_off("local:"@, path, Seq::empty());
    if text::all_ascii(extension) {
        assert(text::all_ascii(lowered(extension))) by {
            assert forall|i: int| 0 <= i < extension.len() implies ((#[trigger] lowered(extension)[i]) as u32) < 128 by {
                assert((extension[i] as u32) < 128);
            }
        }
        text::case_is_forgotten(extension);
    }
    reveal_strlit("LocalMusicClient");
    reveal_strlit("QQMusicClient");
    reveal_strlit("KuwoMusicClient");
    reveal_strlit("NeteaseMusicClient");
    reveal_strlit("MiguMusicClient");
    assert("LocalMusicClient"@[0] == 'L');
    assert("QQMusicClient"@[0] == 'Q');
    assert("KuwoMusicClient"@[0] == 'K');
    assert("NeteaseMusicClient"@[0] == 'N');
    assert("MiguMusicClient"@[0] == 'M');
}

/// The scan looks at files of audio and into directories, and follows no links.
pub proof fn scans_follow_no_links(directory: bool, file: bool, extension: Option<Seq<char>>)
    ensures
        visit_of(true, directory, file, extension) == Visit::Skip,
        visit_of(false, true, file, extension) == Visit::Descend,
        visit_of(false, false, false, extension) == Visit::Skip,
        visit_of(false, false, file, None) == Visit::Skip,
        extension matches Some(extension) ==> (is_audio_extension(lowered(extension)) ==> visit_of(
            false,
            false,
            true,
            Some(extension),
        ) == Visit::Consider) && (!is_audio_extension(lowered(extension)) ==> visit_of(
            false,
            false,
            true,
            Some(extension),
        ) == Visit::Skip),
{
}

/// A file is a song where it is no file of lyrics or the like, its name can be
/// read, and its tags can be read or its bytes look like audio.
pub open spec fn is_song(
    extension: Option<Seq<char>>,
    stem: Option<Seq<char>>,
    contents: Option<Seq<u8>>,
    tagged: bool,
) -> bool {
    &&& !is_companion(extension, contents)
    &&& extension is Some
    &&& stem is Some
    &&& tagged || (contents is Some && looks_like_audio(contents->0))
}

/// The bytes of a file, where they could be read.
pub open spec fn opt_contents(contents: Option<&[u8]>) -> Option<Seq<u8>> {
    match contents {
        Some(contents) => Some(contents@),
        None => None,
    }
}

/// What is read of a file, where the tag library could read it.
pub open spec fn opt_file(tagged: Option<&lofty::file::TaggedFile>) -> Option<TagsView> {
    match tagged {
        Some(file) => Some(tags_of(file_contents(*file))),
        None => None,
    }
}

/// What was read of a file, where it could be read.
pub open spec fn opt_tags(tags: Option<FileTags>) -> Option<TagsView> {
    match tags {
        Some(tags) => Some(tags@),
        None => None,
    }
}

/// The song in a file, with the artwork in it; nothing where the file is none.
pub open spec fn song_of_file(file: LocalFile, contents: Option<Seq<u8>>, tags: Option<TagsView>) -> Option<
    (TrackView, Option<ArtworkView>),
> {
    if is_song(opt(file.extension), opt(file.stem), contents, tags is Some) {
        Some((
            track_of_file(opt(file.extension)->0, opt(file.stem)->0, file.path@, tags),
            match tags {
                Some(tags) => tags.artwork,
                None => None,
            },
        ))
    } else {
        None
    }
}

/// A song with its artwork, mathematically.
pub open spec fn opt_song(song: Option<(Track, Option<LocalArtwork>)>) -> Option<(TrackView, Option<ArtworkView>)> {
    match song {
        Some((track, artwork)) => Some((track@, opt_artwork(artwork))),
        None => None,
    }
}

/// The song in a file, with the artwork in it; nothing where the file is none.
pub fn local_track(file: &LocalFile, contents: Option<&[u8]>, tagged: Option<&lofty::file::TaggedFile>) -> (result:
    Option<(Track, Option<LocalArtwork>)>)
    ensures
        opt_song(result) == song_of_file(*file, opt_contents(contents), opt_file(tagged)),
{
    let tags = match tagged {
        Some(tagged_file) => Some(read_tags(tagged_file)),
        None => None,
    };
    song_in_file(file, contents, tags)
}

/// The song in a file of which something was read, with the artwork in it;
/// nothing where the file is none.
pub fn song_in_file(file: &LocalFile, contents: Option<&[u8]>, tags: Option<FileTags>) -> (result: Option<
    (Track, Option<LocalArtwork>),
>)
    ensures
        opt_song(result) == song_of_file(*file, opt_contents(contents), opt_tags(tags)),
{
    let extension_text = match &file.extension {
        Some(extension) => Some(extension.as_str()),
        None => None,
    };
    if is_lyric_file(extension_text, contents) {
        return None;
    }
    let extension = match &file.extension {
        Some(extension) => text::lower(extension.as_str()),
        None => {
            return None;
        },
    };
    let stem = match &file.stem {
        Some(stem) => stem,
        None => {
            return None;
        },
    };
    let mut artist = String::new();
    let mut title = stem.clone();
    match text::split_once(stem.as_str(), " - ") {
        Some((before, after)) => {
            artist = text::trim(before).to_owned();
            title = text::trim(after).to_owned();
        },
        None => {},
    }
    let mut album = String::new();
    let mut duration_ms: u64 = 0;
    let mut artwork: Option<LocalArtwork> = None;
    match tags {
        Some(tags) => {
            if let Some(value) = tags.title {
                title = value;
            }
            if let Some(value) = tags.artist {
                artist = value;
            }
            if let Some(value) = tags.album {
                album = value;
            }
            duration_ms = tags.duration_ms;
            artwork = tags.artwork;
        },
        None => {
            let audio = match contents {
                Some(contents) => has_audio_magic(contents),
                None => false,
            };
            if !audio {
                return None;
            }
        },
    }
    let mut payload = no_fields();
    put(&mut payload, "localPath", text_value(file.path.as_str()));
    put(&mut payload, "extension", text_value(extension.as_str()));
    assert(fields_view(payload@) =~= local_payload(file.path@, extension@)->Record_0);
    let track = Track {
        id: text::concat("local:", file.path.as_str()),
        source: "LocalMusicClient".to_owned(),
        title,
        artist,
        album,
        artwork_url: String::new(),
        audio_url: file.path.clone(),
        duration_ms,
        format: Some(text::to_upper(extension.as_str())),
        quality: None,
        adapter_payload: Some(record(payload)),
    };
    Some((track, artwork))
}

/// A file whose tags can be read is a song, unless it is one of lyrics or the
/// like or has no name; so is one whose bytes look like audio. The song has the
/// artwork that was read.
pub proof fn readable_files_are_songs(file: LocalFile, contents: Option<Seq<u8>>, tags: Option<TagsView>)
    requires
        file.extension is Some,
        file.stem is Some,
        !is_companion(opt(file.extension), contents),
    ensures
        tags is Some || (contents is Some && looks_like_audio(contents->0)) <==> song_of_file(file, contents, tags)
            is Some,
        song_of_file(file, contents, tags) matches Some((track, artwork)) ==> track.audio_url == file.path@ && (tags
            matches Some(tags) ==> artwork == tags.artwork) && (tags is None ==> artwork is None),
{
}

/// A file that neither the tag library nor its bytes show to be audio is no
/// song, whatever its extension.
pub proof fn renamed_text_is_no_song(extension: Option<Seq<char>>, stem: Option<Seq<char>>, contents: Option<Seq<u8>>)
    requires
        contents is None || !looks_like_audio(contents->0) || is_companion(extension, contents),
    ensures
        !is_song(extension, stem, contents, false),
{
}

// ---------------------------------------------------------------------------
// Paths of tracks
// ---------------------------------------------------------------------------

/// The path of the file that a track plays, where it is a local one.
pub open spec fn path_of(track: TrackView) -> Option<Seq<char>> {
    match track.adapter_payload {
        Some(payload) => unless_blank(as_text(field(payload, "localPath"@))),
        None => None,
    }
}

/// The path of the file that a track plays, where it is a local one.
pub fn local_path(track: &Track) -> (result: Option<String>)
    ensures
        opt(result) == path_of(track@),
{
    match &track.adapter_payload {
        Some(payload) => match text_at(payload.get("localPath")) {
            Some(path) => keep_words(Some(path.to_owned())),
            None => None,
        },
        None => None,
    }
}

/// A track is a local one where its payload holds a path that is not blank.
pub proof fn local_paths_are_read(track: TrackView, payload: JsonView, path: Seq<char>, i: int)
    ensures
        track.adapter_payload == Some(payload) && field(payload, "localPath"@) == Some(JsonView::Text(path)) && 0 <= i
            < path.len() && !text::is_space(path[i]) ==> path_of(track) == Some(path),
        track.adapter_payload == Some(payload) && field(payload, "localPath"@) is None ==> path_of(track) is None,
        track.adapter_payload is None ==> path_of(track) is None,
{
}

/// The track of a file knows the path of the file.
pub proof fn local_tracks_know_their_path(
    extension: Seq<char>,
    stem: Seq<char>,
    path: Seq<char>,
    tags: Option<TagsView>,
)
    requires
        !is_blank(path),
    ensures
        path_of(track_of_file(extension, stem, path, tags)) == Some(path),
{
    let fields = local_payload(path, lowered(extension))->Record_0;
    reveal_strlit("localPath");
    reveal_strlit("extension");
    assert("localPath"@[0] != "extension"@[0]);
    crate::json::last_value_counts(seq![], "localPath"@, JsonView::Text(path));
    assert(fields.drop_last() =~= seq![("localPath"@, JsonView::Text(path))]);
    assert(fields.drop_last().drop_last() =~= seq![]);
    reveal_with_fuel(crate::json::last_place, 3);
}

// ---------------------------------------------------------------------------
// Lyrics beside a file
// ---------------------------------------------------------------------------

/// An entry beside a file: whether it is a file, its extension, and whether its
/// name without the extension is that of the file.
#[derive(Debug)]
pub struct Neighbour {
    pub is_file: bool,
    pub extension: Option<String>,
    pub same_stem: bool,
}

/// An entry that holds the lyrics of a file.
pub open spec fn is_lyrics_of(neighbour: Neighbour) -> bool {
    neighbour.is_file && neighbour.same_stem && match opt(neighbour.extension) {
        Some(extension) => lowered(extension) == "lrc"@,
        None => false,
    }
}

/// An entry that holds the lyrics of a file, with its extension in small
/// letters.
pub open spec fn is_plain_lyrics_of(neighbour: Neighbour) -> bool {
    neighbour.is_file && neighbour.same_stem && opt(neighbour.extension) == Some("lrc"@)
}

/// Lyrics beside a file are a file of the same name with the extension `lrc`, in
/// any case of its letters.
pub proof fn lyrics_are_named_like_the_file(neighbour: Neighbour)
    ensures
        !neighbour.is_file || !neighbour.same_stem || neighbour.extension is None ==> !is_lyrics_of(neighbour)
            && !is_plain_lyrics_of(neighbour),
        neighbour.is_file && neighbour.same_stem ==> (opt(neighbour.extension) matches Some(extension) ==> (lowered(
            extension,
        ) == "lrc"@ <==> is_lyrics_of(neighbour)) && (extension == "lrc"@ <==> is_plain_lyrics_of(neighbour))),
        is_plain_lyrics_of(neighbour) ==> is_lyrics_of(neighbour),
{
    assert(lowered("lrc"@) =~= "lrc"@) by {
        reveal_strlit("lrc");
    }
}

/// The entry that holds the lyrics of a file: the first whose extension is
/// `lrc` to the letter, or else the first whose extension is `lrc` in any case
/// of its letters.
pub fn local_lyrics_path(neighbours: &Vec<Neighbour>) -> (result: Option<usize>)
    ensures
        match result {
            Some(at) => at < neighbours@.len() && is_lyrics_of(neighbours@[at as int]) && if is_plain_lyrics_of(
                neighbours@[at as int],
            ) {
                forall|i: int| 0 <= i < at ==> !is_plain_lyrics_of(#[trigger] neighbours@[i])
            } else {
                &&& forall|i: int| 0 <= i < neighbours@.len() ==> !is_plain_lyrics_of(#[trigger] neighbours@[i])
                &&& forall|i: int| 0 <= i < at ==> !is_lyrics_of(#[trigger] neighbours@[i])
            },
            None => forall|i: int| 0 <= i < neighbours@.len() ==> !is_lyrics_of(#[trigger] neighbours@[i]),
        },
{
    assert(lowered("lrc"@) =~= "lrc"@) by {
        reveal_strlit("lrc");
    }
    let mut loose: Option<usize> = None;
    let mut at: usize = 0;
    while at < neighbours.len()
        invariant
            at <= neighbours@.len(),
            lowered("lrc"@) == "lrc"@,
            forall|i: int| 0 <= i < at ==> !is_plain_lyrics_of(#[trigger] neighbours@[i]),
            match loose {
                Some(first) => first < at && is_lyrics_of(neighbours@[first as int]) && forall|i: int|
                    0 <= i < first ==> !is_lyrics_of(#[trigger] neighbours@[i]),
                None => forall|i: int| 0 <= i < at ==> !is_lyrics_of(#[trigger] neighbours@[i]),
            },
        decreases neighbours.len() - at,
    {
        let neighbour = &neighbours[at];
        if neighbour.is_file && neighbour.same_stem {
            if let Some(extension) = &neighbour.extension {
                if text::same(extension.as_str(), "lrc") {
                    return Some(at);
                }
                if loose.is_none() && text::same_ignoring_case(extension.as_str(), "lrc") {
                    loose = Some(at);
                }
            }
        }
        at += 1;
    }
    loose
}

/// The code units of bytes behind a byte order mark, in the order that the mark
/// tells; a last byte that is alone is left out.
pub open spec fn code_units(bytes: Seq<u8>, little: bool) -> Seq<u16> {
    Seq::new(
        ((bytes.len() - 2) / 2) as nat,
        |i: int|
            if little {
                (bytes[2 + 2 * i] + 256 * bytes[3 + 2 * i]) as u16
            } else {
                (256 * bytes[2 + 2 * i] + bytes[3 + 2 * i]) as u16
            },
    )
}

/// The text of a file of lyrics: UTF-16 where a byte order mark says so, else
/// UTF-8.
pub open spec fn lyrics_decoded(bytes: Seq<u8>) -> Result<Seq<char>, Seq<char>> {
    if marked(bytes, seq![0xff, 0xfe]) || marked(bytes, seq![0xfe, 0xff]) {
        let units = code_units(bytes, marked(bytes, seq![0xff, 0xfe]));
        match utf16_decoded(units) {
            Some(text) => Ok(text),
            None => Err("本地歌词编码无效: "@ + utf16_complaint(units)),
        }
    } else if vstd::utf8::valid_utf8(bytes) {
        Ok(vstd::utf8::decode_utf8(bytes))
    } else {
        Err("本地歌词不是 UTF-8 或 UTF-16: "@ + utf8_complaint(bytes))
    }
}

/// The code units behind a byte order mark.
fn units_of(bytes: &Vec<u8>, little: bool) -> (result: Vec<u16>)
    requires
        bytes@.len() >= 2,
    ensures
        result@ == code_units(bytes@, little),
{
    let size: usize = bytes.len();
    let count: usize = (size - 2) / 2;
    let mut units: Vec<u16> = Vec::new();
    let mut i: usize = 0;
    while i < count
        invariant
            i <= count,
            size == bytes@.len(),
            size >= 2,
            count == (size - 2) / 2,
            units@ == code_units(bytes@, little).take(i as int),
        decreases count - i,
    {
        let first: u16 = bytes[2 + 2 * i] as u16;
        let second: u16 = bytes[3 + 2 * i] as u16;
        let unit: u16 = if little {
            first + 256 * second
        } else {
            256 * first + second
        };
        units.push(unit);
        assert(code_units(bytes@, little).take(i + 1) =~= code_units(bytes@, little).take(i as int).push(unit));
        i += 1;
    }
    assert(code_units(bytes@, little).take(i as int) =~= code_units(bytes@, little));
    units
}

/// Reads the text of a file of lyrics.
pub fn decode_local_lyrics(bytes: Vec<u8>) -> (result: Result<String, String>)
    ensures
        crate::sources::result_view(result) == lyrics_decoded(bytes@),
{
    let little: [u8; 2] = [0xff, 0xfe];
    let big: [u8; 2] = [0xfe, 0xff];
    assert(little@ =~= seq![0xff, 0xfe]);
    assert(big@ =~= seq![0xfe, 0xff]);
    let is_little = crate::media::has_mark(bytes.as_slice(), 0, &little);
    if is_little || crate::media::has_mark(bytes.as_slice(), 0, &big) {
        let units = units_of(&bytes, is_little);
        return match text::utf16_text(&units) {
            Ok(words) => Ok(words),
            Err(error) => Err(text::concat("本地歌词编码无效: ", error.as_str())),
        };
    }
    match text::utf8_text(bytes) {
        Ok(words) => Ok(words),
        Err(error) => Err(text::concat("本地歌词不是 UTF-8 或 UTF-16: ", error.as_str())),
    }
}

/// The lyrics in a file, unless they are blank.
pub open spec fn lyrics_in(bytes: Seq<u8>) -> Result<Option<Seq<char>>, Seq<char>> {
    match lyrics_decoded(bytes) {
        Ok(words) => Ok(unless_blank(Some(words))),
        Err(message) => Err(message),
    }
}

/// The lyrics in a file, unless they are blank.
pub fn local_lyrics(bytes: Vec<u8>) -> (result: Result<Option<String>, String>)
    ensures
        lyrics_in(bytes@) == (match result {
            Ok(words) => Ok::<Option<Seq<char>>, Seq<char>>(opt(words)),
            Err(message) => Err::<Option<Seq<char>>, Seq<char>>(message@),
        }),
        match result {
            Ok(words) => lyrics_decoded(bytes@) is Ok && opt(words) == unless_blank(Some(lyrics_decoded(bytes@)->Ok_0)),
            Err(message) => lyrics_decoded(bytes@) == Err::<Seq<char>, Seq<char>>(message@),
        },
{
    match decode_local_lyrics(bytes) {
        Ok(words) => Ok(keep_words(Some(words))),
        Err(message) => Err(message),
    }
}

/// Code units as bytes behind a byte order mark.
pub open spec fn unit_bytes(units: Seq<u16>, little: bool) -> Seq<u8>
    decreases units.len(),
{
    if units.len() == 0 {
        if little {
            seq![0xff, 0xfe]
        } else {
            seq![0xfe, 0xff]
        }
    } else {
        let unit = units.last();
        let before = unit_bytes(units.drop_last(), little);
        if little {
            before.push((unit % 256) as u8).push((unit / 256) as u8)
        } else {
            before.push((unit / 256) as u8).push((unit % 256) as u8)
        }
    }
}

proof fn lemma_unit_bytes(units: Seq<u16>, little: bool)
    ensures
        unit_bytes(units, little).len() == 2 + 2 * units.len(),
        unit_bytes(units, little)[0] == (if little {
            0xffu8
        } else {
            0xfeu8
        }),
        unit_bytes(units, little)[1] == (if little {
            0xfeu8
        } else {
            0xffu8
        }),
        code_units(unit_bytes(units, little), little) == units,
    decreases units.len(),
{
    let bytes = unit_bytes(units, little);
    if units.len() > 0 {
        let before = unit_bytes(units.drop_last(), little);
        lemma_unit_bytes(units.drop_last(), little);
        let read = code_units(bytes, little);
        assert forall|i: int| 0 <= i < units.len() implies read[i] == units[i] by {
            if i < units.len() - 1 {
                assert(code_units(before, little)[i] == units.drop_last()[i]);
                assert(bytes[2 + 2 * i] == before[2 + 2 * i]);
                assert(bytes[3 + 2 * i] == before[3 + 2 * i]);
            } else {
                assert(2 + 2 * i == before.len());
            }
        }
        assert(read =~= units);
    } else {
        assert(code_units(bytes, little) =~= units);
    }
}

/// Text that was written as UTF-16 behind a byte order mark is read back, in
/// either order of the bytes.
pub proof fn utf16_lyrics_read_back(units: Seq<u16>, words: Seq<char>, little: bool)
    requires
        utf16_decoded(units) == Some(words),
    ensures
        lyrics_decoded(unit_bytes(units, little)) == Ok::<Seq<char>, Seq<char>>(words),
{
    lemma_unit_bytes(units, little);
    let bytes = unit_bytes(units, little);
    let mark = bytes.take(2);
    assert(mark =~= if little {
        seq![0xff, 0xfe]
    } else {
        seq![0xfe, 0xff]
    });
    if !little {
        assert(mark[0] != seq![0xffu8, 0xfe][0]);
    }
}

/// Text that was written as UTF-8 is read back.
pub proof fn utf8_lyrics_read_back(words: Seq<char>)
    ensures
        lyrics_decoded(vstd::utf8::encode_utf8(words)) == Ok::<Seq<char>, Seq<char>>(words),
{
    let bytes = vstd::utf8::encode_utf8(words);
    vstd::utf8::encode_utf8_valid_utf8(words);
    vstd::utf8::encode_utf8_decode_utf8(words);
    if bytes.len() >= 2 {
        assert(bytes[0] <= 0xf7);
        assert(bytes.take(2)[0] == bytes[0]);
    }
}

} // verus!
