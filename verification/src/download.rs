//! Downloads: file names, request headers, covers and tags.
use crate::domain::{Track, TrackView};
use crate::json::{as_text, field, text_at, JsonView};
use crate::playback::{stream_headers, stream_headers_of};
use crate::request::{add_pair, no_pairs, pairs_view, Body, BodyView, Method, Request, RequestView};
use crate::shelf::{Shelf, ShelfView};
use crate::sources::unless_blank;
use crate::text::{self, begins, concat, is_control, lowered, trimmed};
use vstd::prelude::*;
use vstd::string::*;

verus! {

/// A character that some file system does not take in a file name.
pub open spec fn is_unsafe_char(c: char) -> bool {
    ||| c == '/'
    ||| c == '\\'
    ||| c == ':'
    ||| c == '*'
    ||| c == '?'
    ||| c == '"'
    ||| c == '<'
    ||| c == '>'
    ||| c == '|'
    ||| is_control(c)
}

/// A text with every unsafe character replaced by an underscore.
pub open spec fn cleaned(value: Seq<char>) -> Seq<char> {
    Seq::new(
        value.len(),
        |i: int|
            if is_unsafe_char(value[i]) {
                '_'
            } else {
                value[i]
            },
    )
}

/// A text without its trailing full stops.
pub open spec fn without_stops(value: Seq<char>) -> Seq<char>
    decreases value.len(),
{
    if value.len() > 0 && value.last() == '.' {
        without_stops(value.drop_last())
    } else {
        value
    }
}

/// The file name that stands for a text: cleaned, trimmed, without trailing
/// full stops, at most 120 characters of it, and `track` where nothing is left.
pub open spec fn safe_name(value: Seq<char>) -> Seq<char> {
    let kept = without_stops(trimmed(cleaned(value)));
    if kept.len() == 0 {
        "track"@
    } else if kept.len() <= 120 {
        kept
    } else {
        kept.take(120)
    }
}

proof fn lemma_without_stops(value: Seq<char>, to: int)
    requires
        0 <= to <= value.len(),
        forall|i: int| to <= i < value.len() ==> (#[trigger] value[i]) == '.',
        to > 0 ==> value[to - 1] != '.',
    ensures
        without_stops(value) == value.take(to),
    decreases value.len(),
{
    if to < value.len() {
        lemma_without_stops(value.drop_last(), to);
        assert(value.drop_last().take(to) =~= value.take(to));
    } else {
        assert(value.take(to) =~= value);
    }
}

/// Makes a safe file name of a text.
pub fn safe_filename(value: &str) -> (result: String)
    ensures
        result@ == safe_name(value@),
{
    let chars = text::chars_of(value);
    let mut clean = String::new();
    let mut i: usize = 0;
    while i < chars.len()
        invariant
            i <= chars@.len(),
            chars@ == value@,
            clean@ == cleaned(value@).take(i as int),
        decreases chars.len() - i,
    {
        let c = chars[i];
        if c == '/' || c == '\\' || c == ':' || c == '*' || c == '?' || c == '"' || c == '<' || c == '>' || c == '|'
            || text::control(c) {
            clean.push('_');
        } else {
            clean.push(c);
        }
        assert(clean@ =~= cleaned(value@).take(i + 1));
        i += 1;
    }
    assert(cleaned(value@).take(i as int) =~= cleaned(value@));
    let kept = text::chars_of(text::trim(clean.as_str()));
    let mut to: usize = kept.len();
    while to > 0 && kept[to - 1] == '.'
        invariant
            to <= kept@.len(),
            forall|i: int| to <= i < kept@.len() ==> (#[trigger] kept@[i]) == '.',
        decreases to,
    {
        to -= 1;
    }
    proof {
        lemma_without_stops(kept@, to as int);
    }
    if to == 0 {
        return "track".to_owned();
    }
    let size: usize = if to <= 120 {
        to
    } else {
        120
    };
    let mut name = String::new();
    let mut i: usize = 0;
    while i < size
        invariant
            i <= size <= kept@.len(),
            name@ == kept@.take(i as int),
        decreases size - i,
    {
        name.push(kept[i]);
        i += 1;
    }
    assert(kept@.take(to as int).take(120) =~= kept@.take(120) || to < 120);
    name
}

proof fn lemma_trimmed_within(value: Seq<char>)
    ensures
        forall|i: int|
            0 <= i < trimmed(value).len() ==> value.contains(#[trigger] trimmed(value)[i]),
{
    let front = text::trimmed_start(value);
    lemma_trimmed_start_within(value);
    lemma_trimmed_end_within(front);
    assert forall|i: int| 0 <= i < trimmed(value).len() implies value.contains(#[trigger] trimmed(value)[i]) by {
        let j = choose|j: int| 0 <= j < front.len() && front[j] == trimmed(value)[i];
        assert(value.contains(front[j]));
    }
}

proof fn lemma_trimmed_start_within(value: Seq<char>)
    ensures
        forall|i: int|
            0 <= i < text::trimmed_start(value).len() ==> value.contains(#[trigger] text::trimmed_start(value)[i]),
    decreases value.len(),
{
    if value.len() > 0 && text::is_space(value[0]) {
        let rest = value.drop_first();
        lemma_trimmed_start_within(rest);
        assert forall|i: int| 0 <= i < text::trimmed_start(value).len() implies value.contains(
            #[trigger] text::trimmed_start(value)[i],
        ) by {
            assert(rest.contains(text::trimmed_start(rest)[i]));
            let j = choose|j: int| 0 <= j < rest.len() && rest[j] == text::trimmed_start(value)[i];
            assert(value[j + 1] == rest[j]);
        }
    } else {
        assert forall|i: int| 0 <= i < value.len() implies value.contains(#[trigger] value[i]) by {}
    }
}

proof fn lemma_trimmed_end_within(value: Seq<char>)
    ensures
        forall|i: int|
            0 <= i < text::trimmed_end(value).len() ==> value.contains(#[trigger] text::trimmed_end(value)[i]),
    decreases value.len(),
{
    if value.len() > 0 && text::is_space(value.last()) {
        let rest = value.drop_last();
        lemma_trimmed_end_within(rest);
        assert forall|i: int| 0 <= i < text::trimmed_end(value).len() implies value.contains(
            #[trigger] text::trimmed_end(value)[i],
        ) by {
            assert(rest.contains(text::trimmed_end(rest)[i]));
            let j = choose|j: int| 0 <= j < rest.len() && rest[j] == text::trimmed_end(value)[i];
            assert(value[j] == rest[j]);
        }
    } else {
        assert forall|i: int| 0 <= i < value.len() implies value.contains(#[trigger] value[i]) by {}
    }
}

proof fn lemma_stops_within(value: Seq<char>)
    ensures
        without_stops(value).len() <= value.len(),
        forall|i: int| 0 <= i < without_stops(value).len() ==> #[trigger] without_stops(value)[i] == value[i],
    decreases value.len(),
{
    if value.len() > 0 && value.last() == '.' {
        lemma_stops_within(value.drop_last());
    }
}

/// Whatever a text holds, its file name has between one and 120 characters,
/// none of which a file system refuses.
pub proof fn file_names_are_safe(value: Seq<char>)
    ensures
        0 < safe_name(value).len() <= 120,
        forall|i: int| 0 <= i < safe_name(value).len() ==> !is_unsafe_char(#[trigger] safe_name(value)[i]),
{
    reveal_strlit("track");
    let clean = cleaned(value);
    lemma_trimmed_within(clean);
    lemma_stops_within(trimmed(clean));
    let kept = without_stops(trimmed(clean));
    assert forall|i: int| 0 <= i < kept.len() implies !is_unsafe_char(#[trigger] kept[i]) by {
        assert(kept[i] == trimmed(clean)[i]);
        assert(clean.contains(trimmed(clean)[i]));
        let j = choose|j: int| 0 <= j < clean.len() && clean[j] == trimmed(clean)[i];
        assert(!is_unsafe_char('_'));
    }
}

/// A text that can be a file name stays as it is; the characters that cannot
/// stand in one become underscores, each in its place, and nothing else changes.
pub proof fn good_names_are_kept(value: Seq<char>)
    requires
        0 < value.len() <= 120,
        !text::is_space(value[0]),
        !text::is_space(value.last()),
        value.last() != '.',
    ensures
        safe_name(value).len() == value.len(),
        forall|i: int|
            0 <= i < value.len() ==> #[trigger] safe_name(value)[i] == (if value[i] == '/' || value[i] == '\\' || value[i]
                == ':' || value[i] == '*' || value[i] == '?' || value[i] == '"' || value[i] == '<' || value[i] == '>'
                || value[i] == '|' || is_control(value[i]) {
                '_'
            } else {
                value[i]
            }),
{
    let clean = cleaned(value);
    assert(!text::is_space('_'));
    assert(clean.last() != '.' && !text::is_space(clean[0]) && !text::is_space(clean.last()));
    text::trimming_takes_white_space_alone(Seq::empty(), clean, Seq::empty());
    assert(Seq::<char>::empty() + clean + Seq::<char>::empty() =~= clean);
    assert(without_stops(clean) == clean);
}

/// White space around a name and full stops at its end go, a long name keeps its
/// beginning, and where nothing is left the name is `track`.
pub proof fn names_lose_their_edges(lead: Seq<char>, name: Seq<char>, trail: Seq<char>, stops: Seq<char>)
    requires
        text::is_blank(lead),
        text::is_blank(trail),
        forall|i: int| 0 <= i < lead.len() ==> !is_unsafe_char(#[trigger] lead[i]),
        forall|i: int| 0 <= i < trail.len() ==> !is_unsafe_char(#[trigger] trail[i]),
        forall|i: int| 0 <= i < name.len() ==> !is_unsafe_char(#[trigger] name[i]),
        forall|i: int| 0 <= i < stops.len() ==> (#[trigger] stops[i]) == '.',
        name.len() > 0 ==> !text::is_space(name[0]) && name.last() != '.' && !text::is_space(name.last()),
    ensures
        0 < name.len() <= 120 ==> safe_name(lead + (name + stops) + trail) == name,
        name.len() > 120 ==> safe_name(lead + (name + stops) + trail) == name.take(120),
        name.len() == 0 ==> safe_name(lead + (name + stops) + trail) == "track"@,
{
    let whole = lead + (name + stops) + trail;
    assert forall|i: int| 0 <= i < whole.len() implies !is_unsafe_char(#[trigger] whole[i]) by {
        let a = lead.len();
        let b = a + name.len();
        let c = b + stops.len();
        if i < a {
            assert(whole[i] == lead[i]);
        } else if i < b {
            assert(whole[i] == name[i - a]);
        } else if i < c {
            assert(whole[i] == stops[i - b]);
            assert(!is_unsafe_char('.'));
        } else {
            assert(whole[i] == trail[i - c]);
        }
    }
    assert(cleaned(whole) =~= whole);
    let middle = name + stops;
    if middle.len() > 0 {
        assert(!text::is_space('.'));
        assert(name.len() > 0 ==> middle[0] == name[0]);
        assert(name.len() == 0 ==> middle[0] == stops[0]);
        assert(stops.len() > 0 ==> middle.last() == stops[stops.len() - 1]);
        assert(stops.len() == 0 ==> middle.last() == name.last());
    }
    text::trimming_takes_white_space_alone(lead, middle, trail);
    assert forall|i: int| name.len() <= i < middle.len() implies (#[trigger] middle[i]) == '.' by {
        assert(middle[i] == stops[i - name.len()]);
    }
    lemma_without_stops(middle, name.len() as int);
    assert(middle.take(name.len() as int) =~= name);
}

// ---------------------------------------------------------------------------
// Downloading a track
// ---------------------------------------------------------------------------

/// The extension of the file of a track, in small letters: the one that its
/// source told, or else its format where that is short, or else that of MP3.
pub open spec fn download_extension(track: TrackView) -> Seq<char> {
    let told = match track.adapter_payload {
        Some(payload) => unless_blank(as_text(field(payload, "extension"@))),
        None => None,
    };
    match told {
        Some(extension) => lowered(extension),
        None => match unless_blank(track.format) {
            Some(format) => if vstd::utf8::encode_utf8(lowered(format)).len() <= 5 {
                lowered(format)
            } else {
                "mp3"@
            },
            None => "mp3"@,
        },
    }
}

/// The extension of the file of a track.
pub fn file_extension(track: &Track) -> (result: String)
    ensures
        result@ == download_extension(track@),
{
    if let Some(payload) = &track.adapter_payload {
        if let Some(extension) = text_at(payload.get("extension")) {
            if !text::blank(extension) {
                return text::lower(extension);
            }
        }
    }
    if let Some(format) = &track.format {
        if !text::blank(format.as_str()) {
            let small = text::lower(format.as_str());
            if small.as_str().as_bytes().len() <= 5 {
                return small;
            }
        }
    }
    "mp3".to_owned()
}

/// The extension that the source told names the file, in small letters; where it
/// told none, a short format does, and else the file is an MP3.
pub proof fn extensions_are_told_or_guessed(track: TrackView, payload: JsonView, extension: Seq<char>, format: Seq<char>, i: int)
    ensures
        track.adapter_payload == Some(payload) && field(payload, "extension"@) == Some(
            JsonView::Text(extension),
        ) && 0 <= i < extension.len() && !text::is_space(extension[i]) ==> download_extension(track) == lowered(extension),
        track.adapter_payload is None && track.format == Some(format) && 0 <= i < format.len() && !text::is_space(
            format[i],
        ) && vstd::utf8::encode_utf8(lowered(format)).len() <= 5 ==> download_extension(track) == lowered(format),
        track.adapter_payload is None && track.format == Some(format) && vstd::utf8::encode_utf8(lowered(format)).len()
            > 5 ==> download_extension(track) == "mp3"@,
        track.adapter_payload is None && track.format is None ==> download_extension(track) == "mp3"@,
        track.adapter_payload is None && track.format == Some(format) && trimmed(format).len() == 0 ==> download_extension(
            track,
        ) == "mp3"@,
        track.adapter_payload == Some(payload) && field(payload, "extension"@) == Some(JsonView::Text(extension))
            && trimmed(extension).len() == 0 && track.format is None ==> download_extension(track) == "mp3"@,
        track.adapter_payload == Some(payload) && field(payload, "extension"@) == Some(JsonView::Text(extension))
            && trimmed(extension).len() == 0 && track.format == Some(format) && 0 <= i < format.len() && !text::is_space(
            format[i],
        ) && vstd::utf8::encode_utf8(lowered(format)).len() <= 5 ==> download_extension(track) == lowered(format),
        track.adapter_payload == Some(payload) && field(payload, "extension"@) is None && track.format is None
            ==> download_extension(track) == "mp3"@,
        track.adapter_payload == Some(payload) && field(payload, "extension"@) is None && track.format == Some(format)
            && 0 <= i < format.len() && !text::is_space(format[i]) && vstd::utf8::encode_utf8(lowered(format)).len() <= 5
            ==> download_extension(track) == lowered(format),
{
    text::blank_iff_trimmed_empty(format);
    text::blank_iff_trimmed_empty(extension);
}

/// The file of a track is named by its title, its artist and its extension, in
/// this order, where these can stand in a file name.
pub proof fn files_are_named_by_their_song(track: TrackView)
    requires
        0 < track.title.len() <= 120,
        0 < track.artist.len() <= 120,
        0 < download_extension(track).len() <= 120,
        plain_name(track.title),
        plain_name(track.artist),
        plain_name(download_extension(track)),
    ensures
        download_name(track) == track.title + " - "@ + track.artist + "."@ + download_extension(track),
{
    lemma_plain_name(track.title);
    lemma_plain_name(track.artist);
    lemma_plain_name(download_extension(track));
}

/// A text that can stand in a file name as it is.
pub open spec fn plain_name(value: Seq<char>) -> bool {
    &&& forall|i: int| 0 <= i < value.len() ==> !is_unsafe_char(#[trigger] value[i])
    &&& value.len() > 0 ==> !text::is_space(value[0]) && !text::is_space(value.last()) && value.last() != '.'
}

proof fn lemma_plain_name(value: Seq<char>)
    requires
        plain_name(value),
        0 < value.len() <= 120,
    ensures
        safe_name(value) == value,
{
    good_names_are_kept(value);
    assert forall|i: int| 0 <= i < value.len() implies safe_name(value)[i] == value[i] by {
        assert(!is_unsafe_char(value[i]));
    }
    assert(safe_name(value) =~= value);
}

/// A download fetches the address of its track, with the headers that are kept
/// for it.
pub proof fn downloads_fetch_the_stream(track: TrackView)
    ensures
        download_request_view(track).url == track.audio_url,
        download_request_view(track).headers == stream_headers_of(track),
        download_request_view(track).method == Method::Get,
        download_request_view(track).query.len() == 0,
{
}

/// The name of the file of a track.
pub open spec fn download_name(track: TrackView) -> Seq<char> {
    safe_name(track.title) + " - "@ + safe_name(track.artist) + "."@ + safe_name(download_extension(track))
}

/// Whatever a track is called, the name of its file has no character that a
/// file system refuses, so it names a file in the chosen directory and nowhere
/// else.
pub proof fn download_names_are_safe(track: TrackView)
    ensures
        forall|i: int| 0 <= i < download_name(track).len() ==> !is_unsafe_char(#[trigger] download_name(track)[i]),
{
    let title = safe_name(track.title);
    let artist = safe_name(track.artist);
    let extension = safe_name(download_extension(track));
    file_names_are_safe(track.title);
    file_names_are_safe(track.artist);
    file_names_are_safe(download_extension(track));
    reveal_strlit(" - ");
    reveal_strlit(".");
    let whole = download_name(track);
    assert forall|i: int| 0 <= i < whole.len() implies !is_unsafe_char(#[trigger] whole[i]) by {
        let a = title.len();
        let b = a + 3 + artist.len();
        if i < a {
            assert(whole[i] == title[i]);
        } else if i < a + 3 {
            assert(whole[i] == " - "@[i - a]);
        } else if i < b {
            assert(whole[i] == artist[i - a - 3]);
        } else if i < b + 1 {
            assert(whole[i] == "."@[i - b]);
        } else {
            assert(whole[i] == extension[i - b - 1]);
        }
    }
}

/// The name of the file of a track.
pub fn file_name(track: &Track) -> (result: String)
    ensures
        result@ == download_name(track@),
{
    let mut name = concat(safe_filename(track.title.as_str()).as_str(), " - ");
    name.append(safe_filename(track.artist.as_str()).as_str());
    name.append(".");
    name.append(safe_filename(file_extension(track).as_str()).as_str());
    name
}

/// The request for the stream of a track.
pub open spec fn download_request_view(track: TrackView) -> RequestView {
    RequestView {
        method: Method::Get,
        url: track.audio_url,
        query: seq![],
        headers: stream_headers_of(track),
        body: BodyView::Empty,
        timeout: None,
    }
}

/// The request for the stream of a track, or the message that it has none.
pub open spec fn download_plan(track: TrackView) -> Result<RequestView, Seq<char>> {
    if track.audio_url.len() == 0 {
        Err("此音源没有提供可下载地址"@)
    } else {
        Ok(download_request_view(track))
    }
}

/// A track with an address is downloaded from it, and one without is refused.
pub proof fn tracks_with_an_address_are_downloaded(track: TrackView)
    ensures
        track.audio_url.len() > 0 ==> (download_plan(track) matches Ok(request) && request.url == track.audio_url
            && request.headers == stream_headers_of(track)),
        track.audio_url.len() == 0 ==> download_plan(track) == Err::<RequestView, Seq<char>>("此音源没有提供可下载地址"@),
{
}

/// The request for the stream of a track, or the message that it has none.
pub fn download_request(track: &Track) -> (result: Result<Request, String>)
    ensures
        download_plan(track@) == (match result {
            Ok(request) => Ok::<RequestView, Seq<char>>(request@),
            Err(message) => Err::<RequestView, Seq<char>>(message@),
        }),
        match result {
            Ok(request) => track@.audio_url.len() > 0 && request@ == download_request_view(track@),
            Err(message) => track@.audio_url.len() == 0 && message@ == "此音源没有提供可下载地址"@,
        },
{
    if track.audio_url.as_str().is_empty() {
        return Err("此音源没有提供可下载地址".to_owned());
    }
    Ok(
        Request {
            method: Method::Get,
            url: track.audio_url.clone(),
            query: no_pairs(),
            headers: stream_headers(track),
            body: Body::Empty,
            timeout: None,
        },
    )
}

/// What happens to a download: it is stopped, the next piece of the stream
/// arrives or cannot be read, or the stream ends. A stop goes before whatever
/// arrived at the same time.
#[derive(Debug)]
pub enum DownloadEvent {
    Stopped,
    Piece(Vec<u8>),
    Broken(String),
    Ended,
}

/// The mathematical value of a [`DownloadEvent`].
#[verifier::ext_equal]
pub enum EventView {
    Stopped,
    Piece(Seq<u8>),
    Broken(Seq<char>),
    Ended,
}

impl View for DownloadEvent {
    type V = EventView;

    open spec fn view(&self) -> EventView {
        match *self {
            DownloadEvent::Stopped => EventView::Stopped,
            DownloadEvent::Piece(bytes) => EventView::Piece(bytes@),
            DownloadEvent::Broken(error) => EventView::Broken(error@),
            DownloadEvent::Ended => EventView::Ended,
        }
    }
}

/// What a download does next.
#[derive(Debug)]
pub enum DownloadAction {
    /// Write these bytes and go on.
    Write(Vec<u8>),
    /// Finish the file.
    Finish,
    /// Fail with this message.
    Fail(String),
}

/// The mathematical value of a [`DownloadAction`].
#[verifier::ext_equal]
pub enum StepView {
    Write(Seq<u8>),
    Finish,
    Fail(Seq<char>),
}

impl View for DownloadAction {
    type V = StepView;

    open spec fn view(&self) -> StepView {
        match *self {
            DownloadAction::Write(bytes) => StepView::Write(bytes@),
            DownloadAction::Finish => StepView::Finish,
            DownloadAction::Fail(message) => StepView::Fail(message@),
        }
    }
}

/// What a download does upon an event; `stopped` tells whether it was stopped
/// while the event was on its way.
pub open spec fn step_of(event: EventView, stopped: bool) -> StepView {
    match event {
        EventView::Stopped => StepView::Fail("已停止下载"@),
        EventView::Piece(bytes) => if stopped {
            StepView::Fail("已停止下载"@)
        } else {
            StepView::Write(bytes)
        },
        EventView::Broken(error) => if stopped {
            StepView::Fail("已停止下载"@)
        } else {
            StepView::Fail("读取下载流失败: "@ + error)
        },
        EventView::Ended => StepView::Finish,
    }
}

/// Decides what a download does next; `stopped` tells whether it was stopped
/// while the event was on its way.
pub fn download_step(event: DownloadEvent, stopped: bool) -> (result: DownloadAction)
    ensures
        result@ == step_of(event@, stopped),
{
    match event {
        DownloadEvent::Stopped => DownloadAction::Fail("已停止下载".to_owned()),
        DownloadEvent::Piece(bytes) => if stopped {
            DownloadAction::Fail("已停止下载".to_owned())
        } else {
            DownloadAction::Write(bytes)
        },
        DownloadEvent::Broken(error) => if stopped {
            DownloadAction::Fail("已停止下载".to_owned())
        } else {
            DownloadAction::Fail(concat("读取下载流失败: ", error.as_str()))
        },
        DownloadEvent::Ended => DownloadAction::Finish,
    }
}

/// A piece is written byte for byte; a stream that breaks is told with its error,
/// and a stop is told as one, whatever arrives with it.
pub proof fn events_have_their_answers(bytes: Seq<u8>, error: Seq<char>, stopped: bool)
    ensures
        step_of(EventView::Piece(bytes), false) == StepView::Write(bytes),
        step_of(EventView::Ended, stopped) == StepView::Finish,
        step_of(EventView::Broken(error), false) matches StepView::Fail(message) && text::without_prefix(
            message,
            "读取下载流失败: "@,
        ) == Some(error),
        step_of(EventView::Stopped, stopped) == StepView::Fail("已停止下载"@),
        step_of(EventView::Piece(bytes), true) == StepView::Fail("已停止下载"@),
        step_of(EventView::Broken(error), true) == StepView::Fail("已停止下载"@),
{
    text::prefixes_are_taken_off("读取下载流失败: "@, error, Seq::empty());
}

/// How far a download has come: the bytes that it has written, and how it went
/// out once it did.
#[verifier::ext_equal]
pub struct RunView {
    pub written: Seq<u8>,
    pub outcome: Option<Result<(), Seq<char>>>,
}

/// How far a download comes with some events, each with the word whether a stop
/// arrived along with it, on a disk that takes what is written. Once it went
/// out, nothing happens any more.
pub open spec fn run_of(events: Seq<(EventView, bool)>) -> RunView
    decreases events.len(),
{
    if events.len() == 0 {
        RunView { written: Seq::empty(), outcome: None }
    } else {
        let before = run_of(events.drop_last());
        match before.outcome {
            Some(_) => before,
            None => match step_of(events.last().0, events.last().1) {
                StepView::Write(bytes) => RunView { written: before.written + bytes, outcome: None },
                StepView::Finish => RunView { written: before.written, outcome: Some(Ok(())) },
                StepView::Fail(message) => RunView { written: before.written, outcome: Some(Err(message)) },
            },
        }
    }
}

/// A piece of the stream that arrives with no stop.
pub open spec fn is_piece(event: (EventView, bool)) -> bool {
    event.0 is Piece && !event.1
}

/// Events that are pieces of the stream and nothing else.
pub open spec fn all_pieces(events: Seq<(EventView, bool)>) -> bool {
    forall|i: int| 0 <= i < events.len() ==> is_piece(#[trigger] events[i])
}

/// The bytes of pieces, one after the other.
pub open spec fn pieces_joined(events: Seq<(EventView, bool)>) -> Seq<u8>
    decreases events.len(),
{
    if events.len() == 0 {
        Seq::empty()
    } else {
        pieces_joined(events.drop_last()) + events.last().0->Piece_0
    }
}

/// An event that stops a download: the stop itself, or one that arrives along
/// with a piece or with a fault of the stream.
pub open spec fn is_stop(event: (EventView, bool)) -> bool {
    event.0 is Stopped || (event.1 && !(event.0 is Ended))
}

/// A download writes the pieces in the order in which they arrive, and the
/// first event that is no piece decides how it goes out. Until one comes it
/// goes on; whatever comes after it changes nothing.
pub proof fn first_end_decides(events: Seq<(EventView, bool)>, at: int)
    requires
        0 <= at <= events.len(),
        all_pieces(events.take(at)),
        at < events.len() ==> !is_piece(events[at]),
    ensures
        run_of(events).written == pieces_joined(events.take(at)),
        run_of(events).outcome == (if at == events.len() {
            None
        } else {
            match step_of(events[at].0, events[at].1) {
                StepView::Fail(message) => Some(Err::<(), Seq<char>>(message)),
                _ => Some(Ok::<(), Seq<char>>(())),
            }
        }),
    decreases events.len(),
{
    if events.len() > 0 {
        let before = events.drop_last();
        if at == events.len() {
            assert(events.take(at) =~= events);
            assert(before.take(at - 1) =~= before);
            assert forall|i: int| 0 <= i < before.len() implies is_piece(#[trigger] before[i]) by {
                assert(before[i] == events.take(at)[i]);
            }
            first_end_decides(before, at - 1);
            assert(is_piece(events.take(at)[at - 1]));
        } else {
            assert(before.take(at) =~= events.take(at));
            first_end_decides(before, at);
        }
    }
}

/// The place of the first event that is no piece; the number of events where
/// all are.
spec fn first_end(events: Seq<(EventView, bool)>) -> int
    decreases events.len(),
{
    if events.len() == 0 || !is_piece(events[0]) {
        0
    } else {
        1 + first_end(events.skip(1))
    }
}

proof fn lemma_first_end(events: Seq<(EventView, bool)>)
    ensures
        0 <= first_end(events) <= events.len(),
        all_pieces(events.take(first_end(events))),
        first_end(events) < events.len() ==> !is_piece(events[first_end(events)]),
    decreases events.len(),
{
    if events.len() > 0 && is_piece(events[0]) {
        let rest = events.skip(1);
        lemma_first_end(rest);
        let at = first_end(events);
        assert forall|i: int| 0 <= i < at implies is_piece(#[trigger] events.take(at)[i]) by {
            if i > 0 {
                assert(rest.take(at - 1)[i - 1] == events.take(at)[i]);
            }
        }
    }
}

/// A download that finished has written the whole stream: the stream ended, and
/// every event before that was a piece, all of which were written, in order.
pub proof fn finished_downloads_are_whole(events: Seq<(EventView, bool)>)
    requires
        run_of(events).outcome == Some(Ok::<(), Seq<char>>(())),
    ensures
        exists|at: int|
            #![trigger events[at]]
            0 <= at < events.len() && events[at].0 is Ended && all_pieces(events.take(at)) && run_of(events).written
                == pieces_joined(events.take(at)),
{
    let at = first_end(events);
    lemma_first_end(events);
    first_end_decides(events, at);
    assert(events[at].0 is Ended);
}

/// A stream that ends behind its pieces is downloaded.
pub proof fn whole_streams_finish(events: Seq<(EventView, bool)>, at: int)
    requires
        0 <= at < events.len(),
        events[at].0 is Ended,
        all_pieces(events.take(at)),
    ensures
        run_of(events) == (RunView { written: pieces_joined(events.take(at)), outcome: Some(Ok(())) }),
{
    first_end_decides(events, at);
}

/// A download that is stopped before its stream ends never finishes, whatever
/// comes after; and it tells that it was stopped, unless the stream broke
/// before.
pub proof fn stopped_downloads_never_finish(events: Seq<(EventView, bool)>, at: int)
    requires
        0 <= at < events.len(),
        is_stop(events[at]),
        forall|i: int| 0 <= i < at ==> !((#[trigger] events[i]).0 is Ended),
    ensures
        run_of(events).outcome matches Some(Err(_)),
        (forall|i: int| 0 <= i < at ==> !((#[trigger] events[i]).0 is Broken)) ==> run_of(events).outcome == Some(
            Err::<(), Seq<char>>("已停止下载"@),
        ),
{
    let end = first_end(events);
    lemma_first_end(events);
    if end > at {
        assert(is_piece(events.take(end)[at]));
    }
    first_end_decides(events, end);
}

/// Takes what stops a download away from those that are running, or tells that
/// the download is not among them.
pub fn cancel_download<T>(running: &mut Shelf<T>, id: &str) -> (result: Result<T, String>)
    ensures
        final(running)@ == (ShelfView { kept: old(running)@.kept.remove(id@), next: old(running)@.next }),
        match result {
            Ok(stop) => old(running)@.kept.dom().contains(id@) && stop == old(running)@.kept[id@],
            Err(message) => !old(running)@.kept.dom().contains(id@) && message@ == "该下载任务已结束或不存在"@,
        },
{
    match running.remove(id) {
        Some(stop) => Ok(stop),
        None => Err("该下载任务已结束或不存在".to_owned()),
    }
}

// ---------------------------------------------------------------------------
// Covers
// ---------------------------------------------------------------------------

pub const ARTWORK_UA: &'static str = "Mozilla/5.0 (Windows NT 10.0; Win64; x64) AppleWebKit/537.36 (KHTML, like Gecko) Chrome/148.0.0.0 Safari/537.36";

/// The address of the cover of a track, where it is one of the web.
pub open spec fn cover_url(track: TrackView) -> Option<Seq<char>> {
    let url = trimmed(track.artwork_url);
    if begins(url, "http://"@) || begins(url, "https://"@) {
        Some(url)
    } else {
        None
    }
}

/// The request for the cover of a track.
pub open spec fn cover_request_view(track: TrackView, url: Seq<char>) -> RequestView {
    RequestView {
        method: Method::Get,
        url,
        query: seq![],
        headers: seq![("user-agent"@, ARTWORK_UA@)] + stream_headers_of(track),
        body: BodyView::Empty,
        timeout: None,
    }
}

/// The cover of a track is fetched from every address of the web, plain or
/// secure, without the white space around it, and from no other.
pub proof fn covers_are_fetched_from_the_web(track: TrackView, lead: Seq<char>, rest: Seq<char>, trail: Seq<char>)
    requires
        text::is_blank(lead),
        text::is_blank(trail),
        rest.len() > 0,
        !text::is_space(rest.last()),
    ensures
        track.artwork_url == lead + ("http://"@ + rest) + trail ==> cover_url(track) == Some("http://"@ + rest),
        track.artwork_url == lead + ("https://"@ + rest) + trail ==> cover_url(track) == Some("https://"@ + rest),
        begins(trimmed(track.artwork_url), "http://"@) || begins(trimmed(track.artwork_url), "https://"@) <==> cover_url(
            track,
        ) is Some,
        cover_url(track) matches Some(url) ==> url == trimmed(track.artwork_url) && cover_request_view(track, url).url
            == url && cover_request_view(track, url).method == Method::Get,
        text::is_blank(track.artwork_url) ==> cover_url(track) is None,
{
    reveal_strlit("http://");
    reveal_strlit("https://");
    let plain = "http://"@ + rest;
    let secure = "https://"@ + rest;
    assert(plain[0] == 'h' && plain.last() == rest.last());
    assert(secure[0] == 'h' && secure.last() == rest.last());
    text::trimming_takes_white_space_alone(lead, plain, trail);
    text::trimming_takes_white_space_alone(lead, secure, trail);
    text::prefixes_are_taken_off("http://"@, rest, rest);
    text::prefixes_are_taken_off("https://"@, rest, rest);
    text::blank_iff_trimmed_empty(track.artwork_url);
}

/// A cover is fetched with the headers that are kept with its track, behind the
/// name of the program.
pub proof fn covers_are_fetched_with_headers(track: TrackView, url: Seq<char>, i: int)
    requires
        0 <= i < stream_headers_of(track).len(),
    ensures
        cover_request_view(track, url).headers.contains(stream_headers_of(track)[i]),
        cover_request_view(track, url).headers[0] == ("user-agent"@, ARTWORK_UA@),
        cover_request_view(track, url).headers.len() == stream_headers_of(track).len() + 1,
{
    assert(cover_request_view(track, url).headers[i + 1] == stream_headers_of(track)[i]);
}

/// The request for the cover of a track, where it has one.
pub fn cover_request(track: &Track) -> (result: Option<Request>)
    ensures
        match result {
            Some(request) => cover_url(track@) is Some && request@ == cover_request_view(track@, cover_url(track@)->0),
            None => cover_url(track@) is None,
        },
{
    let url = text::trim(track.artwork_url.as_str());
    if !(text::starts_with(url, "http://") || text::starts_with(url, "https://")) {
        return None;
    }
    let mut headers = no_pairs();
    add_pair(&mut headers, "user-agent", ARTWORK_UA);
    let more = stream_headers(track);
    let ghost start = pairs_view(headers@);
    let ghost all = pairs_view(more@);
    assert(start + all.take(0) =~= start);
    let mut i: usize = 0;
    while i < more.len()
        invariant
            i <= more@.len(),
            all == pairs_view(more@),
            pairs_view(headers@) == start + all.take(i as int),
        decreases more.len() - i,
    {
        add_pair(&mut headers, more[i].0.as_str(), more[i].1.as_str());
        assert(all.take(i + 1) =~= all.take(i as int).push(all[i as int]));
        assert(pairs_view(headers@) =~= start + all.take(i + 1));
        i += 1;
    }
    assert(all.take(i as int) =~= all);
    Some(
        Request {
            method: Method::Get,
            url: url.to_owned(),
            query: no_pairs(),
            headers,
            body: Body::Empty,
            timeout: None,
        },
    )
}

/// The number of bytes that a cover has at least.
pub const COVER_LEAST: usize = 16;

/// A cover that was fetched, unless it is too small to be one.
pub open spec fn cover_in(bytes: Seq<u8>) -> Option<Seq<u8>> {
    if bytes.len() < COVER_LEAST {
        None
    } else {
        Some(bytes)
    }
}

/// A cover of sixteen bytes or more is kept byte for byte; less is none.
pub proof fn covers_are_kept(bytes: Seq<u8>)
    ensures
        bytes.len() >= 16 ==> cover_in(bytes) == Some(bytes),
        bytes.len() < 16 ==> cover_in(bytes) is None,
{
}

/// A cover that was fetched, unless it is too small to be one.
pub fn fetched_cover(bytes: Vec<u8>) -> (result: Option<Vec<u8>>)
    ensures
        cover_in(bytes@) == (match result {
            Some(cover) => Some(cover@),
            None => None,
        }),
        result == (if bytes@.len() < COVER_LEAST {
            None
        } else {
            Some(bytes)
        }),
{
    if bytes.len() < COVER_LEAST {
        None
    } else {
        Some(bytes)
    }
}

} // verus!
