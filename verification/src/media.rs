//! What files and streams are: their content types, and the marks by which
//! audio, lyrics and images are told apart.
use crate::domain::{Track, TrackView};
use crate::headers;
use crate::text::{self, after_last, before_first, begins, contains_text, lowered, opt_str, trimmed};
use vstd::prelude::*;

verus! {

// ---------------------------------------------------------------------------
// Content types
// ---------------------------------------------------------------------------

/// The container of a track in small letters: its format where it is known,
/// else what follows the last full stop of its address before any query.
pub open spec fn container(track: TrackView) -> Seq<char> {
    lowered(
        match track.format {
            Some(format) => format,
            None => after_last(before_first(track.audio_url, "?"@), "."@),
        },
    )
}

/// The content type that a container implies.
pub open spec fn container_type(extension: Seq<char>) -> Option<Seq<char>> {
    if extension == "flac"@ {
        Some("audio/flac"@)
    } else if extension == "m4a"@ || extension == "mp4"@ {
        Some("audio/mp4"@)
    } else if extension == "aac"@ {
        Some("audio/aac"@)
    } else if extension == "ogg"@ || extension == "oga"@ || extension == "opus"@ {
        Some("audio/ogg"@)
    } else if extension == "wav"@ {
        Some("audio/wav"@)
    } else if extension == "aif"@ || extension == "aiff"@ {
        Some("audio/aiff"@)
    } else if extension == "mp3"@ || extension == "mpeg"@ || extension == "mp2"@ {
        Some("audio/mpeg"@)
    } else {
        None
    }
}

/// A received content type without its parameters, trimmed and in small
/// letters; empty where there is none.
pub open spec fn bare_type(received: Option<Seq<char>>) -> Seq<char> {
    match received {
        Some(received) => lowered(trimmed(before_first(received, ";"@))),
        None => Seq::empty(),
    }
}

/// The content type to serve for a container and a bare received type. Legacy
/// names become the standard ones; where the source calls the stream Ogg or
/// MPEG and the container is known to be another, the container counts; any
/// other audio type stands; without one the container counts, or MPEG.
pub open spec fn served_type(extension: Seq<char>, received: Seq<char>) -> Seq<char> {
    let implied = container_type(extension);
    if received == "audio/x-flac"@ || received == "application/flac"@ || received == "application/x-flac"@ {
        "audio/flac"@
    } else if received == "audio/x-wav"@ || received == "audio/wave"@ {
        "audio/wav"@
    } else if received == "audio/x-m4a"@ || received == "audio/mp4"@ || received == "video/mp4"@ {
        "audio/mp4"@
    } else if (received == "audio/x-ogg"@ || received == "audio/ogg"@) && implied is Some && !(extension == "ogg"@
        || extension == "oga"@ || extension == "opus"@) {
        implied->0
    } else if received == "audio/x-ogg"@ {
        "audio/ogg"@
    } else if (received == "audio/mpeg"@ || received == "audio/x-mpeg"@) && implied is Some && !(extension == "mp3"@
        || extension == "mpeg"@ || extension == "mp2"@) {
        implied->0
    } else if begins(received, "audio/"@) {
        received
    } else {
        match implied {
            Some(implied) => implied,
            None => "audio/mpeg"@,
        }
    }
}

/// Only types of audio are served, and never one of the legacy names that a
/// player may refuse.
pub proof fn served_types_are_standard(extension: Seq<char>, received: Seq<char>)
    ensures
        begins(served_type(extension, received), "audio/"@),
        served_type(extension, received) != "audio/x-flac"@,
        served_type(extension, received) != "audio/x-wav"@,
        served_type(extension, received) != "audio/x-m4a"@,
        served_type(extension, received) != "audio/x-ogg"@,
{
    reveal_strlit("audio/");
    reveal_strlit("audio/x-flac");
    reveal_strlit("audio/x-wav");
    reveal_strlit("audio/x-m4a");
    reveal_strlit("audio/x-ogg");
    reveal_strlit("audio/flac");
    reveal_strlit("audio/mp4");
    reveal_strlit("audio/aac");
    reveal_strlit("audio/ogg");
    reveal_strlit("audio/wav");
    reveal_strlit("audio/aiff");
    reveal_strlit("audio/mpeg");
    assert("audio/x-flac"@[6] == 'x' && "audio/x-wav"@[6] == 'x' && "audio/x-m4a"@[6] == 'x' && "audio/x-ogg"@[6] == 'x');
    assert("audio/flac"@[6] == 'f' && "audio/mp4"@[6] == 'm' && "audio/aac"@[6] == 'a' && "audio/ogg"@[6] == 'o');
    assert("audio/wav"@[6] == 'w' && "audio/aiff"@[6] == 'a' && "audio/mpeg"@[6] == 'm');
    lemma_begins("audio/flac"@, "audio/"@);
    lemma_begins("audio/mp4"@, "audio/"@);
    lemma_begins("audio/aac"@, "audio/"@);
    lemma_begins("audio/ogg"@, "audio/"@);
    lemma_begins("audio/wav"@, "audio/"@);
    lemma_begins("audio/aiff"@, "audio/"@);
    lemma_begins("audio/mpeg"@, "audio/"@);
}

proof fn lemma_begins(whole: Seq<char>, part: Seq<char>)
    requires
        part.len() <= whole.len(),
        forall|i: int| 0 <= i < part.len() ==> whole[i] == part[i],
    ensures
        begins(whole, part),
{
    assert(whole.subrange(0, part.len() as int) =~= part);
    assert(whole.take(part.len() as int) =~= part);
}

/// Where a source calls a stream Ogg or MPEG but its container is known to be
/// another, the type of the container is served.
pub proof fn mislabelled_streams_keep_their_container(extension: Seq<char>, received: Seq<char>)
    requires
        container_type(extension) is Some,
        ((received == "audio/x-ogg"@ || received == "audio/ogg"@) && container_type(extension) != Some("audio/ogg"@))
            || ((received == "audio/mpeg"@ || received == "audio/x-mpeg"@) && container_type(extension) != Some(
            "audio/mpeg"@,
        )),
    ensures
        served_type(extension, received) == container_type(extension)->0,
{
    reveal_strlit("audio/ogg");
    reveal_strlit("audio/x-ogg");
    reveal_strlit("audio/mpeg");
    reveal_strlit("audio/x-mpeg");
    reveal_strlit("audio/x-flac");
    reveal_strlit("application/flac");
    reveal_strlit("application/x-flac");
    reveal_strlit("audio/x-wav");
    reveal_strlit("audio/wave");
    reveal_strlit("audio/x-m4a");
    reveal_strlit("audio/mp4");
    reveal_strlit("video/mp4");
    assert(received.len() == 9 || received.len() == 10 || received.len() == 11 || received.len() == 12);
    assert(received[received.len() - 1] == 'g');
    assert("audio/x-flac"@[11] == 'c' && "application/flac"@.len() == 16 && "application/x-flac"@.len() == 18);
    assert("audio/x-wav"@[10] == 'v' && "audio/wave"@[9] == 'e' && "audio/x-m4a"@[10] == 'a');
    assert("audio/mp4"@[8] == '4' && "video/mp4"@[8] == '4');
    reveal_strlit("flac");
    reveal_strlit("m4a");
    reveal_strlit("mp4");
    reveal_strlit("aac");
    reveal_strlit("ogg");
    reveal_strlit("oga");
    reveal_strlit("opus");
    reveal_strlit("wav");
    reveal_strlit("aif");
    reveal_strlit("aiff");
    reveal_strlit("mp3");
    reveal_strlit("mpeg");
    reveal_strlit("mp2");
    assert("flac"@[0] == 'f' && "m4a"@[1] == '4' && "mp4"@[2] == '4' && "aac"@[0] == 'a' && "wav"@[0] == 'w');
    assert("aif"@[0] == 'a' && "aiff"@[0] == 'a' && "ogg"@[0] == 'o' && "oga"@[0] == 'o' && "opus"@[0] == 'o');
    assert("mp3"@[2] == '3' && "mpeg"@[2] == 'e' && "mp2"@[2] == '2' && "mp3"@[1] == 'p' && "mpeg"@[1] == 'p' && "mp2"@[1] == 'p');
    assert("mp3"@[0] == 'm' && "mpeg"@[0] == 'm' && "mp2"@[0] == 'm');
}

/// A container is served under its own type where the source tells none, or one
/// that is not of audio.
pub proof fn containers_have_their_types(received: Seq<char>)
    requires
        !begins(received, "audio/"@),
        received != "application/flac"@,
        received != "application/x-flac"@,
        received != "video/mp4"@,
    ensures
        served_type("flac"@, received) == "audio/flac"@,
        served_type("m4a"@, received) == "audio/mp4"@,
        served_type("mp4"@, received) == "audio/mp4"@,
        served_type("aac"@, received) == "audio/aac"@,
        served_type("ogg"@, received) == "audio/ogg"@,
        served_type("oga"@, received) == "audio/ogg"@,
        served_type("opus"@, received) == "audio/ogg"@,
        served_type("wav"@, received) == "audio/wav"@,
        served_type("aif"@, received) == "audio/aiff"@,
        served_type("aiff"@, received) == "audio/aiff"@,
        served_type("mp3"@, received) == "audio/mpeg"@,
        served_type("mpeg"@, received) == "audio/mpeg"@,
        served_type("mp2"@, received) == "audio/mpeg"@,
        served_type(Seq::empty(), received) == "audio/mpeg"@,
{
    lemma_not_audio(received);
    lemma_container_names();
}

proof fn lemma_not_audio(received: Seq<char>)
    requires
        !begins(received, "audio/"@),
    ensures
        received != "audio/x-flac"@,
        received != "audio/x-wav"@,
        received != "audio/wave"@,
        received != "audio/x-m4a"@,
        received != "audio/mp4"@,
        received != "audio/x-ogg"@,
        received != "audio/ogg"@,
        received != "audio/mpeg"@,
        received != "audio/x-mpeg"@,
{
    reveal_strlit("audio/");
    reveal_strlit("audio/x-flac");
    reveal_strlit("audio/x-wav");
    reveal_strlit("audio/wave");
    reveal_strlit("audio/x-m4a");
    reveal_strlit("audio/mp4");
    reveal_strlit("audio/x-ogg");
    reveal_strlit("audio/ogg");
    reveal_strlit("audio/mpeg");
    reveal_strlit("audio/x-mpeg");
    lemma_begins("audio/x-flac"@, "audio/"@);
    lemma_begins("audio/x-wav"@, "audio/"@);
    lemma_begins("audio/wave"@, "audio/"@);
    lemma_begins("audio/x-m4a"@, "audio/"@);
    lemma_begins("audio/mp4"@, "audio/"@);
    lemma_begins("audio/x-ogg"@, "audio/"@);
    lemma_begins("audio/ogg"@, "audio/"@);
    lemma_begins("audio/mpeg"@, "audio/"@);
    lemma_begins("audio/x-mpeg"@, "audio/"@);
}

proof fn lemma_container_names()
    ensures
        container_type("flac"@) == Some("audio/flac"@),
        container_type("m4a"@) == Some("audio/mp4"@),
        container_type("mp4"@) == Some("audio/mp4"@),
        container_type("aac"@) == Some("audio/aac"@),
        container_type("ogg"@) == Some("audio/ogg"@),
        container_type("oga"@) == Some("audio/ogg"@),
        container_type("opus"@) == Some("audio/ogg"@),
        container_type("wav"@) == Some("audio/wav"@),
        container_type("aif"@) == Some("audio/aiff"@),
        container_type("aiff"@) == Some("audio/aiff"@),
        container_type("mp3"@) == Some("audio/mpeg"@),
        container_type("mpeg"@) == Some("audio/mpeg"@),
        container_type("mp2"@) == Some("audio/mpeg"@),
        container_type(Seq::empty()) is None,
{
    reveal_strlit("flac");
    reveal_strlit("m4a");
    reveal_strlit("mp4");
    reveal_strlit("aac");
    reveal_strlit("ogg");
    reveal_strlit("oga");
    reveal_strlit("opus");
    reveal_strlit("wav");
    reveal_strlit("aif");
    reveal_strlit("aiff");
    reveal_strlit("mp3");
    reveal_strlit("mpeg");
    reveal_strlit("mp2");
    assert("flac"@[0] == 'f' && "m4a"@[1] == '4' && "mp4"@[2] == '4' && "aac"@[0] == 'a' && "aac"@[1] == 'a');
    assert("wav"@[0] == 'w' && "aif"@[0] == 'a' && "aif"@[1] == 'i' && "aiff"@[0] == 'a' && "aiff"@[1] == 'i');
    assert("ogg"@[0] == 'o' && "oga"@[0] == 'o' && "opus"@[0] == 'o' && "mp3"@[2] == '3' && "mpeg"@[2] == 'e');
    assert("mp2"@[2] == '2' && "m4a"@[0] == 'm' && "mp4"@[0] == 'm' && "mp3"@[0] == 'm' && "mpeg"@[0] == 'm');
    assert("mp2"@[0] == 'm' && "mp4"@[1] == 'p' && "mp3"@[1] == 'p' && "mpeg"@[1] == 'p' && "mp2"@[1] == 'p');
    assert("mp4"@.len() == 3 && "mp3"@.len() == 3 && "mp2"@.len() == 3 && "mpeg"@.len() == 4);
    assert("flac"@.len() == 4 && "m4a"@.len() == 3 && "aac"@.len() == 3 && "ogg"@.len() == 3 && "oga"@.len() == 3);
    assert("opus"@.len() == 4 && "wav"@.len() == 3 && "aif"@.len() == 3 && "aiff"@.len() == 4);
}

/// What a source calls by an older name is served by the standard one; any other
/// type of audio is served as the source tells it, where the container is not
/// known to be another.
pub proof fn older_names_are_mended(extension: Seq<char>, received: Seq<char>)
    ensures
        received == "audio/x-flac"@ || received == "application/flac"@ || received == "application/x-flac"@
            ==> served_type(extension, received) == "audio/flac"@,
        received == "audio/x-wav"@ || received == "audio/wave"@ ==> served_type(extension, received) == "audio/wav"@,
        received == "audio/x-m4a"@ || received == "video/mp4"@ ==> served_type(extension, received) == "audio/mp4"@,
        container_type(extension) is None && received == "audio/mpeg"@ ==> served_type(extension, received)
            == "audio/mpeg"@,
        container_type(extension) is None && received == "audio/x-ogg"@ ==> served_type(extension, received)
            == "audio/ogg"@,
        received == "audio/aac"@ ==> served_type(extension, received) == "audio/aac"@,
        received == "audio/flac"@ ==> served_type(extension, received) == "audio/flac"@,
{
    reveal_strlit("audio/");
    reveal_strlit("audio/x-flac");
    reveal_strlit("application/flac");
    reveal_strlit("application/x-flac");
    reveal_strlit("audio/x-wav");
    reveal_strlit("audio/wave");
    reveal_strlit("audio/x-m4a");
    reveal_strlit("video/mp4");
    reveal_strlit("audio/mp4");
    reveal_strlit("audio/x-ogg");
    reveal_strlit("audio/ogg");
    reveal_strlit("audio/mpeg");
    reveal_strlit("audio/x-mpeg");
    reveal_strlit("audio/aac");
    reveal_strlit("audio/flac");
    assert("audio/x-flac"@[8] == 'f' && "audio/x-wav"@[8] == 'w' && "audio/x-m4a"@[8] == 'm' && "audio/x-ogg"@[8] == 'o');
    assert("audio/wave"@[6] == 'w' && "audio/mp4"@[6] == 'm' && "audio/ogg"@[6] == 'o' && "audio/aac"@[6] == 'a');
    assert("audio/flac"@[6] == 'f' && "audio/mpeg"@[6] == 'm' && "audio/mpeg"@.len() == 10 && "audio/mp4"@.len() == 9);
    assert("audio/x-flac"@[6] == 'x' && "audio/x-wav"@[6] == 'x' && "audio/x-m4a"@[6] == 'x' && "audio/x-ogg"@[6] == 'x');
    assert("video/mp4"@[0] == 'v' && "audio/mpeg"@[0] == 'a' && "audio/x-wav"@[0] == 'a' && "audio/wave"@[0] == 'a');
    assert("application/flac"@.len() == 16 && "application/x-flac"@.len() == 18 && "audio/x-m4a"@[0] == 'a');
    assert("audio/x-flac"@.len() == 12 && "audio/x-wav"@.len() == 11 && "audio/wave"@.len() == 10);
    lemma_begins("audio/mpeg"@, "audio/"@);
    lemma_begins("audio/aac"@, "audio/"@);
    lemma_begins("audio/flac"@, "audio/"@);
}

/// Any other type of audio is served as the source tells it; so is the type that
/// fits the container.
pub proof fn other_audio_types_stand(extension: Seq<char>, received: Seq<char>)
    requires
        begins(received, "audio/"@),
        received != "audio/x-flac"@ && received != "audio/x-wav"@ && received != "audio/wave"@ && received
            != "audio/x-m4a"@ && received != "audio/x-ogg"@ && received != "audio/mp4"@,
    ensures
        received != "audio/ogg"@ && received != "audio/mpeg"@ && received != "audio/x-mpeg"@ ==> served_type(
            extension,
            received,
        ) == received,
        (extension == "mp3"@ || extension == "mpeg"@ || extension == "mp2"@) && received == "audio/mpeg"@ ==> served_type(
            extension,
            received,
        ) == "audio/mpeg"@,
        (extension == "ogg"@ || extension == "oga"@ || extension == "opus"@) && received == "audio/ogg"@ ==> served_type(
            extension,
            received,
        ) == "audio/ogg"@,
{
    reveal_strlit("audio/");
    reveal_strlit("application/flac");
    reveal_strlit("application/x-flac");
    reveal_strlit("video/mp4");
    reveal_strlit("audio/ogg");
    reveal_strlit("audio/mpeg");
    reveal_strlit("audio/x-mpeg");
    assert(received.subrange(0, 6)[1] == 'u');
    assert(received[1] == 'u');
    assert("application/flac"@[1] == 'p' && "application/x-flac"@[1] == 'p' && "video/mp4"@[1] == 'i');
    assert("audio/ogg"@[6] == 'o' && "audio/mpeg"@[6] == 'm' && "audio/x-mpeg"@[6] == 'x');
}

/// The container of a track is its format, or else the extension of its address
/// before any query, in small letters; the type that a source tells is taken
/// without its parameters.
pub proof fn containers_and_types_are_read(
    track: TrackView,
    stem: Seq<char>,
    extension: Seq<char>,
    query: Seq<char>,
    parameters: Seq<char>,
)
    requires
        !stem.contains('?'),
        !extension.contains('?'),
        !extension.contains('.'),
        !extension.contains(';'),
        extension.len() > 0,
        !text::is_space(extension[0]),
        !text::is_space(extension.last()),
    ensures
        track.format == Some(extension) ==> container(track) == lowered(extension),
        track.format is None && track.audio_url == stem + seq!['.'] + extension + seq!['?'] + query ==> container(track)
            == lowered(extension),
        bare_type(Some(extension + seq![';'] + parameters)) == lowered(extension),
        bare_type(Some(extension)) == lowered(extension),
        bare_type(None).len() == 0,
{
    let path = stem + seq!['.'] + extension;
    reveal_strlit("?");
    reveal_strlit(".");
    reveal_strlit(";");
    assert("?"@ =~= seq!['?']);
    assert("."@ =~= seq!['.']);
    assert(";"@ =~= seq![';']);
    assert(!path.contains('?')) by {
        if path.contains('?') {
            let i = choose|i: int| 0 <= i < path.len() && path[i] == '?';
            if i < stem.len() {
                assert(stem[i] == '?');
            } else if i > stem.len() {
                assert(extension[i - stem.len() - 1] == '?');
            }
        }
    }
    text::texts_are_cut_at_the_first_mark(path, '?', query);
    text::texts_are_cut_at_the_last_mark(stem, '.', extension);
    text::texts_are_cut_at_the_first_mark(extension, ';', parameters);
    text::trimming_takes_white_space_alone(Seq::empty(), extension, Seq::empty());
    assert(Seq::<char>::empty() + extension + Seq::<char>::empty() =~= extension);
}

/// The content type that a container implies.
pub fn type_from_extension(extension: &str) -> (result: Option<&'static str>)
    ensures
        opt_str(result) == container_type(extension@),
{
    if text::same(extension, "flac") {
        Some("audio/flac")
    } else if text::same(extension, "m4a") || text::same(extension, "mp4") {
        Some("audio/mp4")
    } else if text::same(extension, "aac") {
        Some("audio/aac")
    } else if text::same(extension, "ogg") || text::same(extension, "oga") || text::same(extension, "opus") {
        Some("audio/ogg")
    } else if text::same(extension, "wav") {
        Some("audio/wav")
    } else if text::same(extension, "aif") || text::same(extension, "aiff") {
        Some("audio/aiff")
    } else if text::same(extension, "mp3") || text::same(extension, "mpeg") || text::same(extension, "mp2") {
        Some("audio/mpeg")
    } else {
        None
    }
}

/// The content type to serve for a container and a bare received type.
pub fn resolve_type(extension: &str, received: &str) -> (result: String)
    ensures
        result@ == served_type(extension@, received@),
{
    let implied = type_from_extension(extension);
    if text::same(received, "audio/x-flac") || text::same(received, "application/flac") || text::same(
        received,
        "application/x-flac",
    ) {
        return "audio/flac".to_owned();
    }
    if text::same(received, "audio/x-wav") || text::same(received, "audio/wave") {
        return "audio/wav".to_owned();
    }
    if text::same(received, "audio/x-m4a") || text::same(received, "audio/mp4") || text::same(received, "video/mp4") {
        return "audio/mp4".to_owned();
    }
    if text::same(received, "audio/x-ogg") || text::same(received, "audio/ogg") {
        if let Some(implied) = implied {
            if !(text::same(extension, "ogg") || text::same(extension, "oga") || text::same(extension, "opus")) {
                return implied.to_owned();
            }
        }
    }
    if text::same(received, "audio/x-ogg") {
        return "audio/ogg".to_owned();
    }
    if text::same(received, "audio/mpeg") || text::same(received, "audio/x-mpeg") {
        if let Some(implied) = implied {
            if !(text::same(extension, "mp3") || text::same(extension, "mpeg") || text::same(extension, "mp2")) {
                return implied.to_owned();
            }
        }
    }
    if text::starts_with(received, "audio/") {
        return received.to_owned();
    }
    match implied {
        Some(implied) => implied.to_owned(),
        None => "audio/mpeg".to_owned(),
    }
}

/// The content type to serve a track's stream with, given the one that came
/// with it.
pub fn stream_content_type(track: &Track, received: Option<&str>) -> (result: String)
    ensures
        result@ == served_type(container(track@), bare_type(opt_str(received))),
{
    let received = match received {
        Some(received) => text::lower(text::trim(text::head(received, ";"))),
        None => String::new(),
    };
    resolve_type(container_of(track).as_str(), received.as_str())
}

/// The content type to serve a track's stream with, given the headers that
/// came with it.
pub fn media_content_type(track: &Track, headers: &reqwest::header::HeaderMap) -> (result: String)
    ensures
        result@ == served_type(container(track@), bare_type(headers::content_type(*headers))),
{
    stream_content_type(track, headers::content_type_of(headers))
}

/// The container of a track.
fn container_of(track: &Track) -> (result: String)
    ensures
        result@ == container(track@),
{
    match &track.format {
        Some(format) => text::lower(format.as_str()),
        None => text::lower(text::tail(text::head(track.audio_url.as_str(), "?"), ".")),
    }
}

/// The content type to serve a local file with, of which no source tells the
/// type.
pub fn file_content_type(track: &Track) -> (result: String)
    ensures
        result@ == served_type(container(track@), bare_type(None)),
{
    stream_content_type(track, None)
}

/// A content type of a page or a document, not of audio.
pub open spec fn is_document_type(kind: Seq<char>) -> bool {
    ||| contains_text(kind, "text/html"@)
    ||| contains_text(kind, "application/json"@)
    ||| contains_text(kind, "application/xml"@)
    ||| contains_text(kind, "text/plain"@)
}

/// A received content type in small letters; empty where there is none.
pub open spec fn type_or_empty(received: Option<Seq<char>>) -> Seq<char> {
    match received {
        Some(received) => lowered(received),
        None => Seq::empty(),
    }
}

/// A page or a document is known by its type, in any case of its letters and
/// whatever stands around it; audio is none.
pub proof fn documents_are_known(lead: Seq<char>, trail: Seq<char>)
    ensures
        is_document_type(type_or_empty(Some(lead + "text/html"@ + trail))),
        is_document_type(type_or_empty(Some(lead + "application/json"@ + trail))),
        is_document_type(type_or_empty(Some(lead + "application/xml"@ + trail))),
        is_document_type(type_or_empty(Some(lead + "text/plain"@ + trail))),
        !lead.contains('/') ==> !is_document_type(type_or_empty(Some(lead))),
        !is_document_type(type_or_empty(None)),
{
    reveal_strlit("text/html");
    reveal_strlit("application/json");
    reveal_strlit("application/xml");
    reveal_strlit("text/plain");
    let a = lowered(lead);
    let b = lowered(trail);
    assert(lowered(lead + "text/html"@ + trail) =~= a + "text/html"@ + b);
    assert(lowered(lead + "application/json"@ + trail) =~= a + "application/json"@ + b);
    assert(lowered(lead + "application/xml"@ + trail) =~= a + "application/xml"@ + b);
    assert(lowered(lead + "text/plain"@ + trail) =~= a + "text/plain"@ + b);
    text::parts_are_found(a, "text/html"@, b);
    text::parts_are_found(a, "application/json"@, b);
    text::parts_are_found(a, "application/xml"@, b);
    text::parts_are_found(a, "text/plain"@, b);
    assert("text/html"@[4] == '/' && "text/plain"@[4] == '/');
    assert("application/json"@[11] == '/' && "application/xml"@[11] == '/');
    if !lead.contains('/') {
        assert forall|i: int| 0 <= i < a.len() implies #[trigger] a[i] != '/' by {
            assert(lead[i] != '/');
        }
        lemma_no_slash(a, "text/html"@, 4);
        lemma_no_slash(a, "text/plain"@, 4);
        lemma_no_slash(a, "application/json"@, 11);
        lemma_no_slash(a, "application/xml"@, 11);
    }
    let none = Seq::<char>::empty();
    lemma_no_slash(none, "text/html"@, 4);
    lemma_no_slash(none, "text/plain"@, 4);
    lemma_no_slash(none, "application/json"@, 11);
    lemma_no_slash(none, "application/xml"@, 11);
}

proof fn lemma_no_slash(whole: Seq<char>, part: Seq<char>, place: int)
    requires
        0 <= place < part.len(),
        part[place] == '/',
        forall|i: int| 0 <= i < whole.len() ==> #[trigger] whole[i] != '/',
    ensures
        !contains_text(whole, part),
{
    if contains_text(whole, part) {
        let at = choose|at: int| text::occurs_at(whole, part, at);
        assert(whole.subrange(at, at + part.len())[place] == '/');
        assert(whole[at + place] == '/');
    }
}

/// Tells by its content type whether a response is an error page or another
/// document that a source sent in place of audio.
pub fn is_document(kind: Option<&str>) -> (result: bool)
    ensures
        result == is_document_type(type_or_empty(opt_str(kind))),
{
    let kind = match kind {
        Some(kind) => text::lower(kind),
        None => String::new(),
    };
    text::contains(kind.as_str(), "text/html") || text::contains(kind.as_str(), "application/json") || text::contains(
        kind.as_str(),
        "application/xml",
    ) || text::contains(kind.as_str(), "text/plain")
}

// ---------------------------------------------------------------------------
// Marks of files
// ---------------------------------------------------------------------------

/// `bytes` begin with `mark`.
pub open spec fn marked(bytes: Seq<u8>, mark: Seq<u8>) -> bool {
    mark.len() <= bytes.len() && bytes.take(mark.len() as int) == mark
}

/// `bytes` hold `mark` at position `at`.
pub open spec fn marked_at(bytes: Seq<u8>, at: int, mark: Seq<u8>) -> bool {
    at + mark.len() <= bytes.len() && bytes.subrange(at, at + mark.len()) == mark
}

/// Tells whether `bytes` hold `mark` at position `at`.
pub fn has_mark(bytes: &[u8], at: usize, mark: &[u8]) -> (result: bool)
    ensures
        result == marked_at(bytes@, at as int, mark@),
        at == 0 ==> result == marked(bytes@, mark@),
{
    if at > bytes.len() || mark.len() > bytes.len() - at {
        return false;
    }
    assert(bytes@.subrange(0, mark@.len() as int) =~= bytes@.take(mark@.len() as int));
    let size: usize = bytes.len();
    let mut i: usize = 0;
    while i < mark.len()
        invariant
            i <= mark@.len(),
            size == bytes@.len(),
            at + mark@.len() <= size,
            forall|j: int| 0 <= j < i ==> bytes@[at + j] == mark@[j],
        decreases mark.len() - i,
    {
        if bytes[at + i] != mark[i] {
            assert(bytes@.subrange(at as int, at + mark@.len())[i as int] != mark@[i as int]);
            return false;
        }
        i += 1;
    }
    assert(bytes@.subrange(at as int, at + mark@.len()) =~= mark@);
    true
}

/// The image type that the first bytes of a picture give away.
pub open spec fn image_type(bytes: Seq<u8>) -> Option<Seq<char>> {
    if marked(bytes, seq![0xff, 0xd8, 0xff]) {
        Some("image/jpeg"@)
    } else if marked(bytes, seq![0x89, 0x50, 0x4e, 0x47, 0x0d, 0x0a, 0x1a, 0x0a]) {
        Some("image/png"@)
    } else if marked(bytes, seq![0x47, 0x49, 0x46, 0x38, 0x37, 0x61]) || marked(
        bytes,
        seq![0x47, 0x49, 0x46, 0x38, 0x39, 0x61],
    ) {
        // "GIF87a" or "GIF89a"
        Some("image/gif"@)
    } else if marked(bytes, seq![0x52, 0x49, 0x46, 0x46]) && marked_at(bytes, 8, seq![0x57, 0x45, 0x42, 0x50]) {
        // "RIFF", a length, "WEBP"
        Some("image/webp"@)
    } else if marked(bytes, seq![0x42, 0x4d]) {
        // "BM"
        Some("image/bmp"@)
    } else {
        None
    }
}

/// A picture is known by the bytes that it begins with, whatever follows them.
pub proof fn pictures_are_known_by_their_marks(rest: Seq<u8>, size: Seq<u8>)
    requires
        size.len() == 4,
    ensures
        image_type(seq![0xffu8, 0xd8, 0xff] + rest) == Some("image/jpeg"@),
        image_type(seq![0x89u8, 0x50, 0x4e, 0x47, 0x0d, 0x0a, 0x1a, 0x0a] + rest) == Some("image/png"@),
        image_type(seq![0x47u8, 0x49, 0x46, 0x38, 0x37, 0x61] + rest) == Some("image/gif"@),
        image_type(seq![0x47u8, 0x49, 0x46, 0x38, 0x39, 0x61] + rest) == Some("image/gif"@),
        image_type(seq![0x52u8, 0x49, 0x46, 0x46] + size + seq![0x57u8, 0x45, 0x42, 0x50] + rest) == Some("image/webp"@),
        image_type(seq![0x42u8, 0x4d] + rest) == Some("image/bmp"@),
        image_type(Seq::empty()) is None,
        image_type(seq![0x5bu8] + rest) is None,
{
    let jpeg = seq![0xffu8, 0xd8, 0xff];
    let png = seq![0x89u8, 0x50, 0x4e, 0x47, 0x0d, 0x0a, 0x1a, 0x0a];
    let gif87 = seq![0x47u8, 0x49, 0x46, 0x38, 0x37, 0x61];
    let gif89 = seq![0x47u8, 0x49, 0x46, 0x38, 0x39, 0x61];
    let riff = seq![0x52u8, 0x49, 0x46, 0x46];
    let webp = seq![0x57u8, 0x45, 0x42, 0x50];
    let bmp = seq![0x42u8, 0x4d];
    assert((jpeg + rest).take(3) =~= jpeg);
    assert((png + rest).take(8) =~= png);
    assert((gif87 + rest).take(6) =~= gif87);
    assert((gif89 + rest).take(6) =~= gif89);
    assert((bmp + rest).take(2) =~= bmp);
    let picture = riff + size + webp + rest;
    assert(picture.take(4) =~= riff);
    assert(picture.subrange(8, 12) =~= webp);
    lemma_marks_of(png + rest);
    lemma_marks_of(gif87 + rest);
    lemma_marks_of(gif89 + rest);
    lemma_marks_of(picture);
    lemma_marks_of(bmp + rest);
    lemma_marks_of(seq![0x5bu8] + rest);
}

/// A file that begins with any other byte is no picture.
pub proof fn other_bytes_are_no_pictures(bytes: Seq<u8>)
    requires
        bytes.len() > 0,
        bytes[0] != 0xff && bytes[0] != 0x89 && bytes[0] != 0x47 && bytes[0] != 0x52 && bytes[0] != 0x42,
    ensures
        image_type(bytes) is None,
{
    lemma_marks_of(bytes);
}

proof fn lemma_marks_of(bytes: Seq<u8>)
    requires
        bytes.len() > 0,
    ensures
        bytes[0] != 0xff ==> !marked(bytes, seq![0xff, 0xd8, 0xff]),
        bytes[0] != 0x89 ==> !marked(bytes, seq![0x89, 0x50, 0x4e, 0x47, 0x0d, 0x0a, 0x1a, 0x0a]),
        bytes[0] != 0x47 ==> !marked(bytes, seq![0x47, 0x49, 0x46, 0x38, 0x37, 0x61]) && !marked(
            bytes,
            seq![0x47, 0x49, 0x46, 0x38, 0x39, 0x61],
        ),
        bytes[0] != 0x52 ==> !marked(bytes, seq![0x52, 0x49, 0x46, 0x46]),
        bytes[0] != 0x42 ==> !marked(bytes, seq![0x42, 0x4d]),
{
    lemma_first_byte(bytes, seq![0xff, 0xd8, 0xff]);
    lemma_first_byte(bytes, seq![0x89, 0x50, 0x4e, 0x47, 0x0d, 0x0a, 0x1a, 0x0a]);
    lemma_first_byte(bytes, seq![0x47, 0x49, 0x46, 0x38, 0x37, 0x61]);
    lemma_first_byte(bytes, seq![0x47, 0x49, 0x46, 0x38, 0x39, 0x61]);
    lemma_first_byte(bytes, seq![0x52, 0x49, 0x46, 0x46]);
    lemma_first_byte(bytes, seq![0x42, 0x4d]);
}

/// Tells the type of a picture by its first bytes.
pub fn sniff_image_type(bytes: &[u8]) -> (result: Option<&'static str>)
    ensures
        opt_str(result) == image_type(bytes@),
{
    let jpeg: [u8; 3] = [0xff, 0xd8, 0xff];
    let png: [u8; 8] = [0x89, 0x50, 0x4e, 0x47, 0x0d, 0x0a, 0x1a, 0x0a];
    let gif87: [u8; 6] = [0x47, 0x49, 0x46, 0x38, 0x37, 0x61];
    let gif89: [u8; 6] = [0x47, 0x49, 0x46, 0x38, 0x39, 0x61];
    let riff: [u8; 4] = [0x52, 0x49, 0x46, 0x46];
    let webp: [u8; 4] = [0x57, 0x45, 0x42, 0x50];
    let bmp: [u8; 2] = [0x42, 0x4d];
    assert(jpeg@ =~= seq![0xff, 0xd8, 0xff]);
    assert(png@ =~= seq![0x89, 0x50, 0x4e, 0x47, 0x0d, 0x0a, 0x1a, 0x0a]);
    assert(gif87@ =~= seq![0x47, 0x49, 0x46, 0x38, 0x37, 0x61]);
    assert(gif89@ =~= seq![0x47, 0x49, 0x46, 0x38, 0x39, 0x61]);
    assert(riff@ =~= seq![0x52, 0x49, 0x46, 0x46]);
    assert(webp@ =~= seq![0x57, 0x45, 0x42, 0x50]);
    assert(bmp@ =~= seq![0x42, 0x4d]);
    if has_mark(bytes, 0, &jpeg) {
        Some("image/jpeg")
    } else if has_mark(bytes, 0, &png) {
        Some("image/png")
    } else if has_mark(bytes, 0, &gif87) || has_mark(bytes, 0, &gif89) {
        Some("image/gif")
    } else if has_mark(bytes, 0, &riff) && has_mark(bytes, 8, &webp) {
        Some("image/webp")
    } else if has_mark(bytes, 0, &bmp) {
        Some("image/bmp")
    } else {
        None
    }
}

// ---------------------------------------------------------------------------
// Files of a local collection
// ---------------------------------------------------------------------------

/// The extensions of audio files, in small letters.
pub open spec fn is_audio_extension(extension: Seq<char>) -> bool {
    extension == "mp3"@ || extension == "flac"@ || extension == "m4a"@ || extension == "aac"@ || extension == "ogg"@
        || extension == "oga"@ || extension == "opus"@ || extension == "wav"@ || extension == "aif"@ || extension
        == "aiff"@ || extension == "alac"@
}

/// Whether a file with an extension, in any case of its letters, is taken for
/// audio.
pub fn is_audio_path(extension: Option<&str>) -> (result: bool)
    ensures
        result == (match opt_str(extension) {
            Some(extension) => is_audio_extension(lowered(extension)),
            None => false,
        }),
{
    match extension {
        Some(extension) => {
            let extension = text::lower(extension);
            let extension = extension.as_str();
            text::same(extension, "mp3") || text::same(extension, "flac") || text::same(extension, "m4a")
                || text::same(extension, "aac") || text::same(extension, "ogg") || text::same(extension, "oga")
                || text::same(extension, "opus") || text::same(extension, "wav") || text::same(extension, "aif")
                || text::same(extension, "aiff") || text::same(extension, "alac")
        },
        None => false,
    }
}

/// The first bytes of a file look like audio: a tag, the sync word of a frame,
/// or the mark of a container.
pub open spec fn looks_like_audio(sample: Seq<u8>) -> bool {
    marked(sample, seq![0x49, 0x44, 0x33]) || (sample.len() >= 2 && sample[0] == 0xff && sample[1] >= 0xe0)
        || marked(sample, seq![0x66, 0x4c, 0x61, 0x43]) || marked(sample, seq![0x4f, 0x67, 0x67, 0x53]) || marked(
        sample,
        seq![0x52, 0x49, 0x46, 0x46],
    ) || marked(sample, seq![0x46, 0x4f, 0x52, 0x4d]) || marked(sample, seq![0x2e, 0x73, 0x6e, 0x64]) || marked_at(
        sample,
        4,
        seq![0x66, 0x74, 0x79, 0x70],
    )
}

/// Audio is known by the bytes that it begins with, whatever follows them.
pub proof fn audio_is_known_by_its_marks(rest: Seq<u8>, size: Seq<u8>, second: u8)
    requires
        size.len() == 4,
    ensures
        looks_like_audio(seq![0x49u8, 0x44, 0x33] + rest),
        looks_like_audio(seq![0x66u8, 0x4c, 0x61, 0x43] + rest),
        looks_like_audio(seq![0x4fu8, 0x67, 0x67, 0x53] + rest),
        looks_like_audio(seq![0x52u8, 0x49, 0x46, 0x46] + rest),
        looks_like_audio(seq![0x46u8, 0x4f, 0x52, 0x4d] + rest),
        looks_like_audio(seq![0x2eu8, 0x73, 0x6e, 0x64] + rest),
        looks_like_audio(size + seq![0x66u8, 0x74, 0x79, 0x70] + rest),
        second >= 0xe0 ==> looks_like_audio(seq![0xffu8, second] + rest),
        !looks_like_audio(Seq::empty()),
{
    assert((seq![0x49u8, 0x44, 0x33] + rest).take(3) =~= seq![0x49u8, 0x44, 0x33]);
    assert((seq![0x66u8, 0x4c, 0x61, 0x43] + rest).take(4) =~= seq![0x66u8, 0x4c, 0x61, 0x43]);
    assert((seq![0x4fu8, 0x67, 0x67, 0x53] + rest).take(4) =~= seq![0x4fu8, 0x67, 0x67, 0x53]);
    assert((seq![0x52u8, 0x49, 0x46, 0x46] + rest).take(4) =~= seq![0x52u8, 0x49, 0x46, 0x46]);
    assert((seq![0x46u8, 0x4f, 0x52, 0x4d] + rest).take(4) =~= seq![0x46u8, 0x4f, 0x52, 0x4d]);
    assert((seq![0x2eu8, 0x73, 0x6e, 0x64] + rest).take(4) =~= seq![0x2eu8, 0x73, 0x6e, 0x64]);
    assert((size + seq![0x66u8, 0x74, 0x79, 0x70] + rest).subrange(4, 8) =~= seq![0x66u8, 0x74, 0x79, 0x70]);
    assert((seq![0xffu8, second] + rest)[0] == 0xff && (seq![0xffu8, second] + rest)[1] == second);
}

/// A file that begins with letters or digits and holds no container is no audio:
/// a text that was renamed stays a text.
pub proof fn plain_text_is_no_audio(bytes: Seq<u8>)
    requires
        bytes.len() > 0,
        bytes[0] != 0x49 && bytes[0] != 0x66 && bytes[0] != 0x4f && bytes[0] != 0x52 && bytes[0] != 0x46 && bytes[0]
            != 0x2e && bytes[0] != 0xff,
        bytes.len() < 5 || bytes[4] != 0x66,
    ensures
        !looks_like_audio(bytes),
{
    lemma_first_byte(bytes, seq![0x49, 0x44, 0x33]);
    lemma_first_byte(bytes, seq![0x66, 0x4c, 0x61, 0x43]);
    lemma_first_byte(bytes, seq![0x4f, 0x67, 0x67, 0x53]);
    lemma_first_byte(bytes, seq![0x52, 0x49, 0x46, 0x46]);
    lemma_first_byte(bytes, seq![0x46, 0x4f, 0x52, 0x4d]);
    lemma_first_byte(bytes, seq![0x2e, 0x73, 0x6e, 0x64]);
    if marked_at(bytes, 4, seq![0x66, 0x74, 0x79, 0x70]) {
        assert(bytes.subrange(4, 8)[0] == bytes[4]);
    }
}

/// Whether the first bytes of a file look like audio. A text that was renamed
/// with the extension of an audio file does not.
pub fn has_audio_magic(sample: &[u8]) -> (result: bool)
    ensures
        result == looks_like_audio(sample@),
{
    let id3: [u8; 3] = [0x49, 0x44, 0x33];
    let flac: [u8; 4] = [0x66, 0x4c, 0x61, 0x43];
    let ogg: [u8; 4] = [0x4f, 0x67, 0x67, 0x53];
    let riff: [u8; 4] = [0x52, 0x49, 0x46, 0x46];
    let form: [u8; 4] = [0x46, 0x4f, 0x52, 0x4d];
    let snd: [u8; 4] = [0x2e, 0x73, 0x6e, 0x64];
    let ftyp: [u8; 4] = [0x66, 0x74, 0x79, 0x70];
    assert(id3@ =~= seq![0x49, 0x44, 0x33]);
    assert(flac@ =~= seq![0x66, 0x4c, 0x61, 0x43]);
    assert(ogg@ =~= seq![0x4f, 0x67, 0x67, 0x53]);
    assert(riff@ =~= seq![0x52, 0x49, 0x46, 0x46]);
    assert(form@ =~= seq![0x46, 0x4f, 0x52, 0x4d]);
    assert(snd@ =~= seq![0x2e, 0x73, 0x6e, 0x64]);
    assert(ftyp@ =~= seq![0x66, 0x74, 0x79, 0x70]);
    has_mark(sample, 0, &id3) || (sample.len() >= 2 && sample[0] == 0xff && sample[1] >= 0xe0) || has_mark(
        sample,
        0,
        &flac,
    ) || has_mark(sample, 0, &ogg) || has_mark(sample, 0, &riff) || has_mark(sample, 0, &form) || has_mark(
        sample,
        0,
        &snd,
    ) || has_mark(sample, 4, &ftyp)
}

/// Where the text of a file begins: behind the byte order mark of UTF-8.
pub open spec fn text_start(bytes: Seq<u8>) -> int {
    if marked(bytes, seq![0xef, 0xbb, 0xbf]) {
        3
    } else {
        0
    }
}

/// Bytes that look like lyrics: with a byte order mark of UTF-16, or beginning
/// with a bracket that is closed within the first 256 bytes.
pub open spec fn looks_like_text(bytes: Seq<u8>) -> bool {
    let start = text_start(bytes);
    ||| marked(bytes, seq![0xff, 0xfe])
    ||| marked(bytes, seq![0xfe, 0xff])
    ||| (bytes.len() > start && bytes[start] == 0x5b && exists|i: int|
        start <= i < bytes.len() && i < start + 256 && #[trigger] bytes[i] == 0x5d)
}

/// Whether bytes look like lyrics.
pub fn is_text_like(bytes: &[u8]) -> (result: bool)
    ensures
        result == looks_like_text(bytes@),
{
    let little: [u8; 2] = [0xff, 0xfe];
    let big: [u8; 2] = [0xfe, 0xff];
    let utf8: [u8; 3] = [0xef, 0xbb, 0xbf];
    assert(little@ =~= seq![0xff, 0xfe]);
    assert(big@ =~= seq![0xfe, 0xff]);
    assert(utf8@ =~= seq![0xef, 0xbb, 0xbf]);
    if has_mark(bytes, 0, &little) || has_mark(bytes, 0, &big) {
        return true;
    }
    let start: usize = if has_mark(bytes, 0, &utf8) {
        3
    } else {
        0
    };
    let size: usize = bytes.len();
    if size <= start || bytes[start] != 0x5b {
        return false;
    }
    let end: usize = if size - start < 256 {
        size
    } else {
        start + 256
    };
    let mut i: usize = start;
    while i < end
        invariant
            start <= i <= end,
            start == text_start(bytes@),
            end <= size,
            end <= start + 256,
            end == size || end == start + 256,
            size == bytes@.len(),
            start < size,
            bytes@[start as int] == 0x5b,
            forall|j: int| start <= j < i ==> #[trigger] bytes@[j] != 0x5d,
        decreases end - i,
    {
        if bytes[i] == 0x5d {
            return true;
        }
        i += 1;
    }
    false
}

/// The extensions of files that accompany music and are never songs, in small
/// letters.
pub open spec fn is_companion_extension(extension: Seq<char>) -> bool {
    extension == "lrc"@ || extension == "txt"@ || extension == "cue"@ || extension == "m3u"@ || extension == "m3u8"@
        || extension == "pls"@ || extension == "nfo"@ || extension == "log"@ || extension == "srt"@
}

/// A file of lyrics or the like, by its extension or else by its contents;
/// `None` where the contents could not be read.
pub open spec fn is_companion(extension: Option<Seq<char>>, contents: Option<Seq<u8>>) -> bool {
    (extension is Some && is_companion_extension(lowered(extension->0))) || (contents is Some && looks_like_text(
        contents->0,
    ))
}

/// The files that accompany music are known by their extension, in any case of
/// its letters; any other file by a text that begins like lyrics.
pub proof fn companions_are_known(extension: Seq<char>, contents: Option<Seq<u8>>, words: Seq<u8>, rest: Seq<u8>)
    requires
        words.len() < 255,
    ensures
        lowered(extension) == "lrc"@ || lowered(extension) == "txt"@ || lowered(extension) == "cue"@ || lowered(extension)
            == "m3u"@ || lowered(extension) == "m3u8"@ || lowered(extension) == "pls"@ || lowered(extension) == "nfo"@
            || lowered(extension) == "log"@ || lowered(extension) == "srt"@ ==> is_companion(Some(extension), contents),
        looks_like_text(seq![0x5bu8] + words + seq![0x5du8] + rest),
        looks_like_text(seq![0xefu8, 0xbb, 0xbf, 0x5b] + words + seq![0x5du8] + rest),
        looks_like_text(seq![0xffu8, 0xfe] + rest),
        looks_like_text(seq![0xfeu8, 0xff] + rest),
        !looks_like_text(Seq::empty()),
        contents matches Some(bytes) ==> (looks_like_text(bytes) ==> is_companion(Some(extension), contents)),
        is_audio_extension(lowered(extension)) && contents is None ==> !is_companion(Some(extension), contents),
{
    let plain = seq![0x5bu8] + words + seq![0x5du8] + rest;
    lemma_first_byte(plain, seq![0xef, 0xbb, 0xbf]);
    assert(plain[words.len() as int + 1] == 0x5d);
    let marked_text = seq![0xefu8, 0xbb, 0xbf, 0x5b] + words + seq![0x5du8] + rest;
    assert(marked_text.take(3) =~= seq![0xefu8, 0xbb, 0xbf]);
    assert(marked_text[3] == 0x5b);
    assert(marked_text[words.len() as int + 4] == 0x5d);
    assert((seq![0xffu8, 0xfe] + rest).take(2) =~= seq![0xffu8, 0xfe]);
    assert((seq![0xfeu8, 0xff] + rest).take(2) =~= seq![0xfeu8, 0xff]);
    reveal_strlit("mp3");
    reveal_strlit("flac");
    reveal_strlit("m4a");
    reveal_strlit("aac");
    reveal_strlit("ogg");
    reveal_strlit("oga");
    reveal_strlit("opus");
    reveal_strlit("wav");
    reveal_strlit("aif");
    reveal_strlit("aiff");
    reveal_strlit("alac");
    reveal_strlit("lrc");
    reveal_strlit("txt");
    reveal_strlit("cue");
    reveal_strlit("m3u");
    reveal_strlit("m3u8");
    reveal_strlit("pls");
    reveal_strlit("nfo");
    reveal_strlit("log");
    reveal_strlit("srt");
    assert("lrc"@[0] == 'l' && "txt"@[0] == 't' && "cue"@[0] == 'c' && "m3u"@[1] == '3' && "m3u8"@[1] == '3');
    assert("pls"@[0] == 'p' && "nfo"@[0] == 'n' && "log"@[0] == 'l' && "srt"@[0] == 's');
    assert("mp3"@[0] == 'm' && "mp3"@[1] == 'p' && "flac"@[0] == 'f' && "m4a"@[0] == 'm' && "m4a"@[1] == '4');
    assert("aac"@[0] == 'a' && "ogg"@[0] == 'o' && "oga"@[0] == 'o' && "opus"@[0] == 'o' && "wav"@[0] == 'w');
    assert("aif"@[0] == 'a' && "aiff"@[0] == 'a' && "alac"@[0] == 'a');
}

/// A file that accompanies music is known by its extension or by its text, and by
/// nothing else; text begins with a byte order mark or with a bracket that is
/// closed soon.
pub proof fn nothing_else_is_a_companion(extension: Option<Seq<char>>, contents: Option<Seq<u8>>, bytes: Seq<u8>)
    ensures
        (extension is None || !is_companion_extension(lowered(extension->0))) && (contents is None || !looks_like_text(
            contents->0,
        )) ==> !is_companion(extension, contents),
        bytes.len() > 0 && bytes[0] != 0x5b && bytes[0] != 0xef && bytes[0] != 0xff && bytes[0] != 0xfe
            ==> !looks_like_text(bytes),
        bytes.len() > 0 && bytes[0] == 0x5b && (forall|i: int|
            0 <= i < bytes.len() && i < 256 ==> #[trigger] bytes[i] != 0x5d) ==> !looks_like_text(bytes),
{
    if bytes.len() > 0 {
        lemma_first_byte(bytes, seq![0xff, 0xfe]);
        lemma_first_byte(bytes, seq![0xfe, 0xff]);
        lemma_first_byte(bytes, seq![0xef, 0xbb, 0xbf]);
    }
}

/// The extensions of files that accompany music.
pub proof fn companion_extensions_are_known(extension: Seq<char>)
    ensures
        extension == "lrc"@ || extension == "txt"@ || extension == "cue"@ || extension == "m3u"@ || extension == "m3u8"@
            || extension == "pls"@ || extension == "nfo"@ || extension == "log"@ || extension == "srt"@
            <==> is_companion_extension(extension),
{
}

/// The extensions of audio files.
pub proof fn audio_extensions_are_known(extension: Seq<char>)
    ensures
        extension == "mp3"@ || extension == "flac"@ || extension == "m4a"@ || extension == "aac"@ || extension == "ogg"@
            || extension == "oga"@ || extension == "opus"@ || extension == "wav"@ || extension == "aif"@ || extension
            == "aiff"@ || extension == "alac"@ <==> is_audio_extension(extension),
{
}

/// Whether a file is one of lyrics or the like.
pub fn is_lyric_file(extension: Option<&str>, contents: Option<&[u8]>) -> (result: bool)
    ensures
        result == is_companion(
            opt_str(extension),
            match contents {
                Some(contents) => Some(contents@),
                None => None,
            },
        ),
{
    if let Some(extension) = extension {
        let extension = text::lower(extension);
        let extension = extension.as_str();
        if text::same(extension, "lrc") || text::same(extension, "txt") || text::same(extension, "cue") || text::same(
            extension,
            "m3u",
        ) || text::same(extension, "m3u8") || text::same(extension, "pls") || text::same(extension, "nfo")
            || text::same(extension, "log") || text::same(extension, "srt") {
            return true;
        }
    }
    match contents {
        Some(contents) => is_text_like(contents),
        None => false,
    }
}

/// Bytes that begin like audio never look like lyrics, but for a sync word that
/// is a byte order mark too, and for what is known as audio only by the mark of
/// a container behind its fourth byte.
pub proof fn audio_is_no_text(bytes: Seq<u8>)
    requires
        looks_like_audio(bytes),
        !marked(bytes, seq![0xff, 0xfe]),
        !marked_at(bytes, 4, seq![0x66, 0x74, 0x79, 0x70]),
    ensures
        !looks_like_text(bytes),
{
    lemma_first_byte(bytes, seq![0x49, 0x44, 0x33]);
    lemma_first_byte(bytes, seq![0x66, 0x4c, 0x61, 0x43]);
    lemma_first_byte(bytes, seq![0x4f, 0x67, 0x67, 0x53]);
    lemma_first_byte(bytes, seq![0x52, 0x49, 0x46, 0x46]);
    lemma_first_byte(bytes, seq![0x46, 0x4f, 0x52, 0x4d]);
    lemma_first_byte(bytes, seq![0x2e, 0x73, 0x6e, 0x64]);
    lemma_first_byte(bytes, seq![0xfe, 0xff]);
    lemma_first_byte(bytes, seq![0xef, 0xbb, 0xbf]);
}

proof fn lemma_first_byte(bytes: Seq<u8>, mark: Seq<u8>)
    requires
        mark.len() > 0,
    ensures
        marked(bytes, mark) ==> bytes.len() > 0 && bytes[0] == mark[0],
{
    if marked(bytes, mark) {
        assert(bytes.take(mark.len() as int)[0] == bytes[0]);
    }
}

/// A copy of some bytes.
pub fn copy_bytes(bytes: &[u8]) -> (result: Vec<u8>)
    ensures
        result@ == bytes@,
{
    let mut result: Vec<u8> = Vec::new();
    let mut i: usize = 0;
    while i < bytes.len()
        invariant
            i <= bytes@.len(),
            result@ == bytes@.take(i as int),
        decreases bytes.len() - i,
    {
        result.push(bytes[i]);
        assert(bytes@.take(i + 1) =~= bytes@.take(i as int).push(bytes@[i as int]));
        i += 1;
    }
    assert(bytes@.take(i as int) =~= bytes@);
    result
}

} // verus!
