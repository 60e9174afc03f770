//! The adapters of the music sources.
//!
//! An adapter is made of requests to send, of what is read from the replies,
//! and of the decision what to ask for next; sending is left to the caller.
use crate::domain::{DescriptorView, SourceDescriptor, Track, TrackView};
use crate::text::{self, after_last, before_first, is_blank, opt, without_prefix};
use vstd::prelude::*;
use vstd::string::*;

pub mod kuwo;
pub mod migu;
pub mod netease;
pub mod qq;

verus! {

/// What has to be done to make a track playable.
#[derive(Debug)]
pub enum Lookup {
    /// Nothing: the track has the address of its stream.
    Ready,
    /// Look up the stream of the song with this identifier.
    Song(String),
    /// Nothing can be done: the track is not one of the source's.
    Foreign(String),
}

/// The mathematical value of a [`Lookup`].
#[verifier::ext_equal]
pub enum LookupView {
    Ready,
    Song(Seq<char>),
    Foreign(Seq<char>),
}

impl View for Lookup {
    type V = LookupView;

    open spec fn view(&self) -> LookupView {
        match *self {
            Lookup::Ready => LookupView::Ready,
            Lookup::Song(song) => LookupView::Song(song@),
            Lookup::Foreign(message) => LookupView::Foreign(message@),
        }
    }
}

/// What has to be done for a track, where the identifiers of the source begin
/// with `prefix` and `message` refuses any other.
pub open spec fn lookup_of(track: TrackView, prefix: Seq<char>, message: Seq<char>) -> LookupView {
    if !is_blank(track.audio_url) {
        LookupView::Ready
    } else {
        match without_prefix(track.id, prefix) {
            Some(song) => LookupView::Song(song),
            None => LookupView::Foreign(message),
        }
    }
}

/// Decides what has to be done for a track.
pub fn lookup(track: &Track, prefix: &str, message: &str) -> (result: Lookup)
    ensures
        result@ == lookup_of(track@, prefix@, message@),
{
    if !text::blank(track.audio_url.as_str()) {
        return Lookup::Ready;
    }
    match text::strip_prefix(track.id.as_str(), prefix) {
        Some(song) => Lookup::Song(song.to_owned()),
        None => Lookup::Foreign(message.to_owned()),
    }
}

/// The song of a source that a track is, or the message that it is none.
pub open spec fn song_of(track: TrackView, prefix: Seq<char>, message: Seq<char>) -> Result<Seq<char>, Seq<char>> {
    match without_prefix(track.id, prefix) {
        Some(song) => Ok(song),
        None => Err(message),
    }
}

/// A result of texts, mathematically.
pub open spec fn result_view(result: Result<String, String>) -> Result<Seq<char>, Seq<char>> {
    match result {
        Ok(text) => Ok(text@),
        Err(text) => Err(text@),
    }
}

/// A resolved track or a message, mathematically.
pub open spec fn track_result(result: Result<Track, String>) -> Result<TrackView, Seq<char>> {
    match result {
        Ok(track) => Ok(track@),
        Err(message) => Err(message@),
    }
}

/// The song of a source that a track is, or the message that it is none.
pub fn song_id(track: &Track, prefix: &str, message: &str) -> (result: Result<String, String>)
    ensures
        result_view(result) == song_of(track@, prefix@, message@),
{
    match text::strip_prefix(track.id.as_str(), prefix) {
        Some(song) => Ok(song.to_owned()),
        None => Err(message.to_owned()),
    }
}

/// The extension that the address of a stream ends with before any query, or
/// `other` where it takes more than five bytes.
pub open spec fn short_extension(url: Seq<char>, other: Seq<char>) -> Seq<char> {
    let extension = after_last(before_first(url, "?"@), "."@);
    if vstd::utf8::encode_utf8(extension).len() <= 5 {
        extension
    } else {
        other
    }
}

/// The extension that the address of a stream ends with.
pub fn extension_or<'a>(url: &'a str, other: &'a str) -> (result: &'a str)
    ensures
        result@ == short_extension(url@, other@),
{
    let extension = text::tail(text::head(url, "?"), ".");
    if extension.as_bytes().len() <= 5 {
        extension
    } else {
        other
    }
}

/// A text, unless it is missing or blank.
pub open spec fn unless_blank(text: Option<Seq<char>>) -> Option<Seq<char>> {
    match text {
        Some(text) if !is_blank(text) => Some(text),
        _ => None,
    }
}

/// A text, unless it is missing or blank.
pub fn keep_words(words: Option<String>) -> (result: Option<String>)
    ensures
        opt(result) == unless_blank(opt(words)),
{
    match words {
        Some(words) => if text::blank(words.as_str()) {
            None
        } else {
            Some(words)
        },
        None => None,
    }
}

/// A track without an address is looked up by what follows the prefix of its
/// source in its identifier; one of another source is refused, and one that has
/// an address needs nothing.
pub proof fn songs_are_looked_up_by_their_identifier(
    track: TrackView,
    prefix: Seq<char>,
    song: Seq<char>,
    message: Seq<char>,
)
    ensures
        track.id == prefix + song && is_blank(track.audio_url) ==> lookup_of(track, prefix, message)
            == LookupView::Song(song),
        track.id == prefix + song ==> song_of(track, prefix, message) == Ok::<Seq<char>, Seq<char>>(song),
        !is_blank(track.audio_url) ==> lookup_of(track, prefix, message) == LookupView::Ready,
        !text::begins(track.id, prefix) ==> song_of(track, prefix, message) == Err::<Seq<char>, Seq<char>>(message),
        !text::begins(track.id, prefix) && is_blank(track.audio_url) ==> lookup_of(track, prefix, message)
            == LookupView::Foreign(message),
{
    text::prefixes_are_taken_off(prefix, song, track.id);
}

/// The extension of an address is what stands between its last full stop and
/// its query, where that is short; else the other one.
pub proof fn extensions_stand_before_the_query(
    stem: Seq<char>,
    extension: Seq<char>,
    query: Seq<char>,
    other: Seq<char>,
)
    requires
        !stem.contains('?'),
        !extension.contains('?'),
        !extension.contains('.'),
    ensures
        vstd::utf8::encode_utf8(extension).len() <= 5 ==> short_extension(stem + seq!['.'] + extension, other)
            == extension && short_extension(stem + seq!['.'] + extension + seq!['?'] + query, other) == extension,
        vstd::utf8::encode_utf8(extension).len() > 5 ==> short_extension(stem + seq!['.'] + extension, other) == other
            && short_extension(stem + seq!['.'] + extension + seq!['?'] + query, other) == other,
{
    let path = stem + seq!['.'] + extension;
    reveal_strlit("?");
    reveal_strlit(".");
    assert("?"@ =~= seq!['?']);
    assert("."@ =~= seq!['.']);
    assert(!path.contains('?')) by {
        if path.contains('?') {
            let i = choose|i: int| 0 <= i < path.len() && path[i] == '?';
            if i < stem.len() {
                assert(stem[i] == '?');
            } else if i > stem.len() {
                assert(extension[i - stem.len() - 1] == '?');
            }
        }
    }
    text::texts_are_cut_at_the_first_mark(path, '?', query);
    text::texts_are_cut_at_the_last_mark(stem, '.', extension);
}

/// A text with a character in it that is no white space is kept as it is; a
/// blank one is not kept.
pub proof fn words_are_kept(text: Seq<char>, i: int)
    ensures
        0 <= i < text.len() && !text::is_space(text[i]) ==> unless_blank(Some(text)) == Some(text),
        text::trimmed(text).len() == 0 ==> unless_blank(Some(text)) is None,
        unless_blank(None) is None,
{
    text::blank_iff_trimmed_empty(text);
}

// ---------------------------------------------------------------------------
// The sources
// ---------------------------------------------------------------------------

/// A music source.
#[derive(Debug, Clone, Copy, PartialEq, Eq, Structural)]
pub enum Source {
    Qq,
    Kuwo,
    Netease,
    Migu,
}

/// What every source can do.
pub open spec fn all_capabilities() -> Seq<Seq<char>> {
    seq!["search"@, "stream"@, "download"@, "lyrics"@]
}

/// The identifier of a source.
pub open spec fn source_id(source: Source) -> Seq<char> {
    match source {
        Source::Qq => "QQMusicClient"@,
        Source::Kuwo => "KuwoMusicClient"@,
        Source::Netease => "NeteaseMusicClient"@,
        Source::Migu => "MiguMusicClient"@,
    }
}

/// The name of a source.
pub open spec fn source_name(source: Source) -> Seq<char> {
    match source {
        Source::Qq => "QQ音乐"@,
        Source::Kuwo => "酷我音乐"@,
        Source::Netease => "网易云音乐"@,
        Source::Migu => "咪咕音乐"@,
    }
}

/// Whether a source is searched unless the user says otherwise. NetEase and Migu
/// are optional.
pub open spec fn is_default(source: Source) -> bool {
    source is Qq || source is Kuwo
}

fn described(id: &'static str, name: &'static str, enabled: bool) -> (result: SourceDescriptor)
    ensures
        result@ == (DescriptorView { id: id@, name: name@, capabilities: all_capabilities(), enabled }),
{
    let capabilities: &'static [&'static str] = &["search", "stream", "download", "lyrics"];
    let result = SourceDescriptor { id, name, capabilities, enabled };
    assert(result@.capabilities =~= all_capabilities());
    result
}

/// The description of a source.
pub fn descriptor(source: Source) -> (result: SourceDescriptor)
    ensures
        result@ == (DescriptorView {
            id: source_id(source),
            name: source_name(source),
            capabilities: all_capabilities(),
            enabled: is_default(source),
        }),
{
    match source {
        Source::Qq => described("QQMusicClient", "QQ音乐", true),
        Source::Kuwo => described("KuwoMusicClient", "酷我音乐", true),
        Source::Netease => described("NeteaseMusicClient", "网易云音乐", false),
        Source::Migu => described("MiguMusicClient", "咪咕音乐", false),
    }
}

/// The sources, in the order in which they are searched.
pub open spec fn all_sources() -> Seq<Source> {
    seq![Source::Qq, Source::Kuwo, Source::Netease, Source::Migu]
}

/// The sources, in the order in which they are searched.
pub fn registry() -> (result: Vec<Source>)
    ensures
        result@ == all_sources(),
{
    let result: Vec<Source> = vec![Source::Qq, Source::Kuwo, Source::Netease, Source::Migu];
    assert(result@ =~= all_sources());
    result
}

/// The descriptions of the sources.
pub fn list_sources() -> (result: Vec<SourceDescriptor>)
    ensures
        result@.len() == all_sources().len(),
        forall|i: int|
            0 <= i < result@.len() ==> (#[trigger] result@[i])@ == (DescriptorView {
                id: source_id(all_sources()[i]),
                name: source_name(all_sources()[i]),
                capabilities: all_capabilities(),
                enabled: is_default(all_sources()[i]),
            }),
{
    let sources = registry();
    let mut result: Vec<SourceDescriptor> = Vec::new();
    let mut i: usize = 0;
    while i < sources.len()
        invariant
            i <= sources@.len(),
            sources@ == all_sources(),
            result@.len() == i,
            forall|j: int|
                0 <= j < i ==> (#[trigger] result@[j])@ == (DescriptorView {
                    id: source_id(all_sources()[j]),
                    name: source_name(all_sources()[j]),
                    capabilities: all_capabilities(),
                    enabled: is_default(all_sources()[j]),
                }),
        decreases sources.len() - i,
    {
        result.push(descriptor(sources[i]));
        i += 1;
    }
    result
}

/// The source with an identifier, among all of them.
pub open spec fn source_with(id: Seq<char>) -> Option<Source> {
    if id == source_id(Source::Qq) {
        Some(Source::Qq)
    } else if id == source_id(Source::Kuwo) {
        Some(Source::Kuwo)
    } else if id == source_id(Source::Netease) {
        Some(Source::Netease)
    } else if id == source_id(Source::Migu) {
        Some(Source::Migu)
    } else {
        None
    }
}

/// The source with an identifier.
pub fn find_source(id: &str) -> (result: Option<Source>)
    ensures
        result == source_with(id@),
{
    if text::same(id, "QQMusicClient") {
        Some(Source::Qq)
    } else if text::same(id, "KuwoMusicClient") {
        Some(Source::Kuwo)
    } else if text::same(id, "NeteaseMusicClient") {
        Some(Source::Netease)
    } else if text::same(id, "MiguMusicClient") {
        Some(Source::Migu)
    } else {
        None
    }
}

/// No two sources share an identifier, and each is found by its own.
pub proof fn sources_are_found(source: Source)
    ensures
        source_with(source_id(source)) == Some(source),
        all_sources().contains(source),
        forall|other: Source| source_id(other) == source_id(source) ==> other == source,
{
    reveal_strlit("QQMusicClient");
    reveal_strlit("KuwoMusicClient");
    reveal_strlit("NeteaseMusicClient");
    reveal_strlit("MiguMusicClient");
    assert("QQMusicClient"@[0] == 'Q');
    assert("KuwoMusicClient"@[0] == 'K');
    assert("NeteaseMusicClient"@[0] == 'N');
    assert("MiguMusicClient"@[0] == 'M');
    assert(all_sources()[0] == Source::Qq);
    assert(all_sources()[1] == Source::Kuwo);
    assert(all_sources()[2] == Source::Netease);
    assert(all_sources()[3] == Source::Migu);
}

/// QQ Music and Kuwo are searched unless the user says otherwise, and before the
/// others; NetEase and Migu are not.
pub proof fn default_sources_come_first(i: int, j: int)
    requires
        0 <= i < j < all_sources().len(),
    ensures
        is_default(all_sources()[j]) ==> is_default(all_sources()[i]),
        all_sources()[i] != all_sources()[j],
        is_default(Source::Qq) && is_default(Source::Kuwo),
        !is_default(Source::Netease) && !is_default(Source::Migu),
        all_sources().len() == 4,
        all_sources()[0] == Source::Qq,
        all_sources()[1] == Source::Kuwo,
        all_sources()[2] == Source::Netease,
        all_sources()[3] == Source::Migu,
{
}

/// What users and callers know the sources by.
pub proof fn sources_have_their_names(source: Source)
    ensures
        source == Source::Qq ==> source_name(source) == "QQ音乐"@ && source_id(source) == "QQMusicClient"@,
        source == Source::Kuwo ==> source_name(source) == "酷我音乐"@ && source_id(source) == "KuwoMusicClient"@,
        source == Source::Netease ==> source_name(source) == "网易云音乐"@ && source_id(source)
            == "NeteaseMusicClient"@,
        source == Source::Migu ==> source_name(source) == "咪咕音乐"@ && source_id(source) == "MiguMusicClient"@,
        all_capabilities().contains("search"@) && all_capabilities().contains("stream"@),
        all_capabilities().contains("download"@) && all_capabilities().contains("lyrics"@),
        all_capabilities().len() == 4,
{
    assert(all_capabilities()[0] == "search"@ && all_capabilities()[1] == "stream"@);
    assert(all_capabilities()[2] == "download"@ && all_capabilities()[3] == "lyrics"@);
}

/// Only what was registered is found: a source that is found has the identifier
/// that it was asked for by.
pub proof fn found_sources_have_the_identifier(id: Seq<char>)
    ensures
        source_with(id) matches Some(source) ==> source_id(source) == id,
        source_with(id) is None ==> forall|source: Source| #[trigger] source_id(source) != id,
{
}

/// A track of a source that finds its streams while it searches.
pub open spec fn searched(track: TrackView) -> Result<TrackView, Seq<char>> {
    if is_blank(track.audio_url) {
        Err("该音源暂时未能解析该歌曲的播放地址"@)
    } else {
        Ok(track)
    }
}

/// A track that was found with its address is played as it is, and one without
/// is refused.
pub proof fn searched_tracks_are_ready(track: TrackView, i: int)
    ensures
        0 <= i < track.audio_url.len() && !text::is_space(track.audio_url[i]) ==> searched(track) == Ok::<
            TrackView,
            Seq<char>,
        >(track),
        track.audio_url.len() == 0 ==> searched(track) == Err::<TrackView, Seq<char>>("该音源暂时未能解析该歌曲的播放地址"@),
{
}

/// A track of a source that finds its streams while it searches: it can be
/// played if it has the address of its stream.
pub fn resolve_searched(track: &Track) -> (result: Result<Track, String>)
    ensures
        track_result(result) == searched(track@),
{
    if text::blank(track.audio_url.as_str()) {
        Err("该音源暂时未能解析该歌曲的播放地址".to_owned())
    } else {
        Ok(track.clone())
    }
}

} // verus!
