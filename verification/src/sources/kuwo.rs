//! Kuwo Music.
use crate::domain::{opt_track, tracks_view, Track, TrackView};
use crate::headers;
use crate::json::{self, as_list, as_text, child, either, field, list_view, text_or_empty, Json, JsonView};
use crate::media::{has_mark, marked, marked_at, type_or_empty};
use crate::playback::{kept_headers_are_sent, stream_headers_of};
use crate::request::{add_pair, no_pairs, Body, BodyView, Method, Request, RequestView};
use crate::sources::{self, lookup_of, song_of, track_result, Lookup};
use crate::text::{self, after_last, before_first, begins, concat, contains_text, decimal, in_capitals, joined, leading, lowered, number_of, opt, opt_pair, opt_str, stripped_start, texts, trimmed, without_prefix, without_suffix};
use vstd::prelude::*;
use vstd::string::*;

verus! {

pub const KUWO_UA: &'static str = "Mozilla/5.0 (Windows NT 10.0; Win64; x64) AppleWebKit/537.36 (KHTML, like Gecko) Chrome/134.0.0.0 Safari/537.36";

pub const KUWO_CGG_UA: &'static str = "Mozilla/5.0 (Windows NT 10.0; Win64; x64) AppleWebKit/537.36 (KHTML, like Gecko) Chrome/148.0.0.0 Safari/537.36";

// ---------------------------------------------------------------------------
// Inspecting a stream
// ---------------------------------------------------------------------------

/// The request for the beginning of what an address leads to.
pub open spec fn inspect_request_view(url: Seq<char>) -> RequestView {
    RequestView {
        method: Method::Get,
        url,
        query: seq![],
        headers: seq![("User-Agent"@, KUWO_UA@), ("Range"@, "bytes=0-8191"@)],
        body: BodyView::Empty,
        timeout: None,
    }
}

/// The request for the beginning of what an address leads to.
pub fn inspect_request(url: &str) -> (result: Request)
    ensures
        result@ == inspect_request_view(url@),
{
    let mut headers = no_pairs();
    add_pair(&mut headers, "User-Agent", KUWO_UA);
    add_pair(&mut headers, "Range", "bytes=0-8191");
    Request {
        method: Method::Get,
        url: url.to_owned(),
        query: no_pairs(),
        headers,
        body: Body::Empty,
        timeout: None,
    }
}

/// Only the first bytes of what an address leads to are asked for, and of that
/// address alone.
pub proof fn streams_are_inspected_briefly(url: Seq<char>)
    ensures
        inspect_request_view(url).url == url,
        inspect_request_view(url).method == Method::Get,
        inspect_request_view(url).query.len() == 0,
        inspect_request_view(url).headers.contains(("Range"@, "bytes=0-8191"@)),
        inspect_request_view(url).headers.contains(("User-Agent"@, KUWO_UA@)),
{
    assert(inspect_request_view(url).headers[0] == ("User-Agent"@, KUWO_UA@));
    assert(inspect_request_view(url).headers[1] == ("Range"@, "bytes=0-8191"@));
}

/// A content type, in small letters, that no audio stream has.
pub open spec fn is_page_type(kind: Seq<char>) -> bool {
    contains_text(kind, "text/"@) || contains_text(kind, "json"@) || contains_text(kind, "html"@)
}

/// The extension that the address of a stream ends with, where it is one of
/// audio.
pub open spec fn address_extension(url: Seq<char>) -> Option<Seq<char>> {
    let extension = lowered(after_last(before_first(url, "?"@), "."@));
    if extension == "mp3"@ || extension == "flac"@ || extension == "m4a"@ || extension == "aac"@ || extension == "ogg"@
        || extension == "wav"@ {
        Some(extension)
    } else {
        None
    }
}

/// The container of a stream: by its content type in small letters, else by
/// its first bytes, else by its address.
pub open spec fn stream_extension(kind: Seq<char>, sample: Seq<u8>, url: Seq<char>) -> Option<Seq<char>> {
    if contains_text(kind, "flac"@) || marked(sample, seq![0x66, 0x4c, 0x61, 0x43]) {
        // "fLaC"
        Some("flac"@)
    } else if contains_text(kind, "ogg"@) || marked(sample, seq![0x4f, 0x67, 0x67, 0x53]) {
        // "OggS"
        Some("ogg"@)
    } else if contains_text(kind, "wav"@) || marked(sample, seq![0x52, 0x49, 0x46, 0x46]) {
        // "RIFF"
        Some("wav"@)
    } else if contains_text(kind, "mp4"@) || marked_at(sample, 4, seq![0x66, 0x74, 0x79, 0x70]) {
        // "ftyp"
        Some("m4a"@)
    } else if contains_text(kind, "mpeg"@) || marked(sample, seq![0x49, 0x44, 0x33]) || (sample.len() > 1 && sample[0]
        == 0xff && sample[1] & 0xe0 == 0xe0) {
        // "ID3", or the sync word of an MPEG frame
        Some("mp3"@)
    } else {
        address_extension(url)
    }
}

/// What is learnt of a stream from the first reply: its final address and its
/// container, unless the reply failed, is a page or is empty.
pub open spec fn inspected(success: bool, kind: Option<Seq<char>>, sample: Option<Seq<u8>>, url: Seq<char>) -> Option<
    (Seq<char>, Seq<char>),
> {
    let kind = type_or_empty(kind);
    match sample {
        Some(sample) => if success && !is_page_type(kind) && sample.len() > 0 {
            match stream_extension(kind, sample, url) {
                Some(extension) => Some((url, extension)),
                None => None,
            }
        } else {
            None
        },
        None => None,
    }
}

/// A content type in small letters, empty where there is none.
fn small_kind(kind: Option<&str>) -> (result: String)
    ensures
        result@ == type_or_empty(opt_str(kind)),
{
    match kind {
        Some(kind) => text::lower(kind),
        None => String::new(),
    }
}

/// Tells by the content type of a reply whether its body is worth sampling.
pub fn may_be_audio(success: bool, kind: Option<&str>) -> (result: bool)
    ensures
        result == (success && !is_page_type(type_or_empty(opt_str(kind)))),
{
    let kind = small_kind(kind);
    success && !(text::contains(kind.as_str(), "text/") || text::contains(kind.as_str(), "json") || text::contains(
        kind.as_str(),
        "html",
    ))
}

/// Tells whether the body of a reply is worth sampling.
pub fn worth_sampling(success: bool, headers: &reqwest::header::HeaderMap) -> (result: bool)
    ensures
        result == (success && !is_page_type(type_or_empty(headers::content_type(*headers)))),
{
    may_be_audio(success, headers::content_type_of(headers))
}

/// The extension that the address of a stream ends with.
pub fn extension_of_address(url: &str) -> (result: Option<String>)
    ensures
        opt(result) == address_extension(url@),
{
    let extension = text::lower(text::tail(text::head(url, "?"), "."));
    let found = extension.as_str();
    if text::same(found, "mp3") || text::same(found, "flac") || text::same(found, "m4a") || text::same(found, "aac")
        || text::same(found, "ogg") || text::same(found, "wav") {
        Some(extension)
    } else {
        None
    }
}

/// The container of a stream.
pub fn infer_extension(kind: &str, sample: &[u8], url: &str) -> (result: Option<String>)
    ensures
        opt(result) == stream_extension(kind@, sample@, url@),
{
    let flac: [u8; 4] = [0x66, 0x4c, 0x61, 0x43];
    let ogg: [u8; 4] = [0x4f, 0x67, 0x67, 0x53];
    let riff: [u8; 4] = [0x52, 0x49, 0x46, 0x46];
    let ftyp: [u8; 4] = [0x66, 0x74, 0x79, 0x70];
    let id3: [u8; 3] = [0x49, 0x44, 0x33];
    assert(flac@ =~= seq![0x66, 0x4c, 0x61, 0x43]);
    assert(ogg@ =~= seq![0x4f, 0x67, 0x67, 0x53]);
    assert(riff@ =~= seq![0x52, 0x49, 0x46, 0x46]);
    assert(ftyp@ =~= seq![0x66, 0x74, 0x79, 0x70]);
    assert(id3@ =~= seq![0x49, 0x44, 0x33]);
    if text::contains(kind, "flac") || has_mark(sample, 0, &flac) {
        Some("flac".to_owned())
    } else if text::contains(kind, "ogg") || has_mark(sample, 0, &ogg) {
        Some("ogg".to_owned())
    } else if text::contains(kind, "wav") || has_mark(sample, 0, &riff) {
        Some("wav".to_owned())
    } else if text::contains(kind, "mp4") || has_mark(sample, 4, &ftyp) {
        Some("m4a".to_owned())
    } else if text::contains(kind, "mpeg") || has_mark(sample, 0, &id3) || (sample.len() > 1 && sample[0] == 0xff
        && sample[1] & 0xe0 == 0xe0) {
        Some("mp3".to_owned())
    } else {
        extension_of_address(url)
    }
}

/// Judges a stream by the first reply to it: whether it succeeded, its content
/// type, its first bytes and the address at which redirects ended.
pub fn inspect_reply(success: bool, kind: Option<&str>, sample: Option<&[u8]>, url: &str) -> (result: Option<
    (String, String),
>)
    ensures
        opt_pair(result) == inspected(
            success,
            opt_str(kind),
            match sample {
                Some(sample) => Some(sample@),
                None => None,
            },
            url@,
        ),
{
    if !may_be_audio(success, kind) {
        return None;
    }
    match sample {
        Some(sample) => {
            if sample.len() == 0 {
                return None;
            }
            match infer_extension(small_kind(kind).as_str(), sample, url) {
                Some(extension) => Some((url.to_owned(), extension)),
                None => None,
            }
        },
        None => None,
    }
}

/// Judges a stream by the first reply to it and its headers.
pub fn inspect_audio(success: bool, headers: &reqwest::header::HeaderMap, sample: Option<&[u8]>, url: &str) -> (result:
    Option<(String, String)>)
    ensures
        opt_pair(result) == inspected(
            success,
            headers::content_type(*headers),
            match sample {
                Some(sample) => Some(sample@),
                None => None,
            },
            url@,
        ),
{
    inspect_reply(success, headers::content_type_of(headers), sample, url)
}

/// The container of a stream is told by its content type or by its first bytes,
/// which go before its address; where neither tells it, its address does.
pub proof fn containers_are_told(kind: Seq<char>, sample: Seq<u8>, url: Seq<char>)
    ensures
        contains_text(kind, "flac"@) ==> stream_extension(kind, sample, url) == Some("flac"@),
        marked(sample, seq![0x66, 0x4c, 0x61, 0x43]) ==> stream_extension(kind, sample, url) == Some("flac"@),
        marked(sample, seq![0x4f, 0x67, 0x67, 0x53]) && kind.len() == 0 ==> stream_extension(kind, sample, url) == Some(
            "ogg"@,
        ),
        marked(sample, seq![0x52, 0x49, 0x46, 0x46]) && kind.len() == 0 ==> stream_extension(kind, sample, url) == Some(
            "wav"@,
        ),
        marked(sample, seq![0x49, 0x44, 0x33]) && !marked_at(sample, 4, seq![0x66, 0x74, 0x79, 0x70]) && kind.len() == 0
            ==> stream_extension(kind, sample, url) == Some("mp3"@),
        kind.len() == 0 && sample.len() < 2 ==> stream_extension(kind, sample, url) == address_extension(url),
        stream_extension(kind, sample, url) matches Some(extension) ==> extension == "flac"@ || extension == "ogg"@
            || extension == "wav"@ || extension == "m4a"@ || extension == "mp3"@ || extension == "aac"@,
{
    reveal_strlit("flac");
    reveal_strlit("ogg");
    reveal_strlit("wav");
    reveal_strlit("mp4");
    reveal_strlit("mpeg");
    if marked(sample, seq![0x4f, 0x67, 0x67, 0x53]) {
        assert(sample.take(4)[0] == 0x4f);
        assert(!marked(sample, seq![0x66, 0x4c, 0x61, 0x43]));
    }
    if marked(sample, seq![0x52, 0x49, 0x46, 0x46]) {
        assert(sample.take(4)[0] == 0x52);
    }
    if marked(sample, seq![0x49, 0x44, 0x33]) {
        assert(sample.take(3)[0] == 0x49);
    }
    if marked(sample, seq![0x66, 0x4c, 0x61, 0x43]) {
        assert(sample.take(4)[0] == 0x66);
    }
}

/// The extension of an address counts where it is one of audio, in any case of
/// its letters, and without the query.
pub proof fn audio_addresses_tell_their_container(
    stem: Seq<char>,
    extension: Seq<char>,
    query: Seq<char>,
)
    requires
        !stem.contains('?'),
        !extension.contains('?'),
        !extension.contains('.'),
    ensures
        ({
            let small = lowered(extension);
            let known = small == "mp3"@ || small == "flac"@ || small == "m4a"@ || small == "aac"@ || small == "ogg"@
                || small == "wav"@;
            let url = stem + seq!['.'] + extension + seq!['?'] + query;
            &&& known ==> address_extension(url) == Some(small)
            &&& !known ==> address_extension(url) is None
        }),
{
    let path = stem + seq!['.'] + extension;
    reveal_strlit("?");
    reveal_strlit(".");
    assert("?"@ =~= seq!['?']);
    assert("."@ =~= seq!['.']);
    assert(!path.contains('?')) by {
        if path.contains('?') {
            let i = choose|i: int| 0 <= i < path.len() && path[i] == '?';
            if i < stem.len() {
                assert(stem[i] == '?');
            } else if i > stem.len() {
                assert(extension[i - stem.len() - 1] == '?');
            }
        }
    }
    text::texts_are_cut_at_the_first_mark(path, '?', query);
    text::texts_are_cut_at_the_last_mark(stem, '.', extension);
}

/// A stream is taken only where the reply succeeded, is no page and has bytes;
/// then its address is the one at which redirects ended.
pub proof fn only_audio_is_taken(
    success: bool,
    kind: Option<Seq<char>>,
    sample: Option<Seq<u8>>,
    url: Seq<char>,
    lead: Seq<char>,
    trail: Seq<char>,
)
    ensures
        inspected(success, kind, sample, url) matches Some((address, _)) ==> address == url && success && sample
            is Some && sample->0.len() > 0,
        kind == Some(lead + "text/"@ + trail) ==> inspected(success, kind, sample, url) is None,
        kind == Some(lead + "json"@ + trail) ==> inspected(success, kind, sample, url) is None,
        kind == Some(lead + "html"@ + trail) ==> inspected(success, kind, sample, url) is None,
        success && kind is None && sample is Some && marked(sample->0, seq![0x66, 0x4c, 0x61, 0x43]) ==> inspected(
            success,
            kind,
            sample,
            url,
        ) == Some((url, "flac"@)),
{
    reveal_strlit("text/");
    reveal_strlit("json");
    reveal_strlit("html");
    assert(lowered("text/"@) =~= "text/"@);
    assert(lowered("json"@) =~= "json"@);
    assert(lowered("html"@) =~= "html"@);
    let a = lowered(lead);
    let b = lowered(trail);
    assert(lowered(lead + "text/"@ + trail) =~= a + "text/"@ + b);
    assert(lowered(lead + "json"@ + trail) =~= a + "json"@ + b);
    assert(lowered(lead + "html"@ + trail) =~= a + "html"@ + b);
    text::parts_are_found(a, "text/"@, b);
    text::parts_are_found(a, "json"@, b);
    text::parts_are_found(a, "html"@, b);
}

// ---------------------------------------------------------------------------
// Looking up a stream
// ---------------------------------------------------------------------------

/// A stream that was found and inspected.
#[derive(Debug, Clone)]
pub struct ResolvedAudio {
    pub url: String,
    pub quality: String,
    pub extension: String,
}

/// The mathematical value of a [`ResolvedAudio`].
#[verifier::ext_equal]
pub struct ResolvedView {
    pub url: Seq<char>,
    pub quality: Seq<char>,
    pub extension: Seq<char>,
}

impl View for ResolvedAudio {
    type V = ResolvedView;

    open spec fn view(&self) -> ResolvedView {
        ResolvedView { url: self.url@, quality: self.quality@, extension: self.extension@ }
    }
}

/// An optional stream, mathematically.
pub open spec fn opt_audio(audio: Option<ResolvedAudio>) -> Option<ResolvedView> {
    match audio {
        Some(audio) => Some(audio@),
        None => None,
    }
}

/// The number of resolvers, which are asked in turn: cgg, lxmusic, three tiers
/// of nxinxz, three tiers of haitangw, and nobb.
pub const RESOLVERS: usize = 9;

/// The tier that a resolver is asked for, where it has tiers.
pub open spec fn resolver_level(step: int) -> Seq<char> {
    if step == 2 || step == 5 {
        "lossless"@
    } else if step == 3 || step == 6 {
        "exhigh"@
    } else {
        "standard"@
    }
}

/// The label of what a resolver gives.
pub open spec fn resolver_quality(step: int) -> Seq<char> {
    if step == 0 || step == 1 || step == 2 || step == 5 {
        "无损"@
    } else if step == 3 || step == 6 {
        "320K"@
    } else if step == 4 || step == 7 {
        "128K"@
    } else {
        Seq::empty()
    }
}

/// The request to a resolver.
pub open spec fn resolver_request(step: int, song_id: Seq<char>) -> RequestView {
    if step == 0 {
        RequestView {
            method: Method::Get,
            url: "https://kw-api.cenguigui.cn/"@,
            query: seq![("id"@, song_id), ("type"@, "song"@), ("level"@, "lossless"@), ("format"@, "json"@)],
            headers: seq![("User-Agent"@, KUWO_CGG_UA@)],
            body: BodyView::Empty,
            timeout: None,
        }
    } else if step == 1 {
        RequestView {
            method: Method::Get,
            url: "https://lxmusicapi.onrender.com/url/kw/"@ + song_id + "/flac"@,
            query: seq![],
            headers: seq![
                ("Content-Type"@, "application/json"@),
                ("User-Agent"@, "lx-music-request/2.6.0"@),
                ("X-Request-Key"@, "share-v3"@),
            ],
            body: BodyView::Empty,
            timeout: None,
        }
    } else if step < 8 {
        RequestView {
            method: Method::Get,
            url: if step < 5 {
                "http://music.nxinxz.com/kw.php"@
            } else {
                "https://musicapi.haitangw.net/music/kw.php"@
            },
            query: seq![("id"@, song_id), ("level"@, resolver_level(step)), ("type"@, "json"@)],
            headers: seq![("User-Agent"@, KUWO_UA@)],
            body: BodyView::Empty,
            timeout: None,
        }
    } else {
        RequestView {
            method: Method::Get,
            url: "https://api.nobb.cc/kuwo.music/index.php"@,
            query: seq![("id"@, song_id)],
            headers: seq![("User-Agent"@, KUWO_UA@)],
            body: BodyView::Empty,
            timeout: None,
        }
    }
}

/// The reply of the first resolver.
#[derive(Debug, Clone)]
pub struct KuwoAudioEnvelope {
    pub data: Option<KuwoAudioData>,
}

/// What the reply of the first resolver holds.
#[derive(Debug, Clone)]
pub struct KuwoAudioData {
    pub url: Option<String>,
}

/// The address in the reply of the first resolver.
pub open spec fn envelope_address(envelope: KuwoAudioEnvelope) -> Option<Seq<char>> {
    match envelope.data {
        Some(data) => opt(data.url),
        None => None,
    }
}

/// The address in the reply of a resolver after the first: `data.url` of those
/// that have tiers, `url` of the others.
pub open spec fn resolver_address(step: int, reply: JsonView) -> Option<Seq<char>> {
    if step == 1 || step == 8 {
        as_text(field(reply, "url"@))
    } else {
        as_text(child(child(Some(reply), "data"@), "url"@))
    }
}

/// What the search for a stream does next.
#[derive(Debug)]
pub enum AudioAction {
    /// Ask this resolver.
    Ask(usize),
    /// Inspect the address that this resolver gave.
    Inspect(usize, String),
    /// Stop, with the stream that was found.
    Finish(Option<ResolvedAudio>),
}

/// The mathematical value of an [`AudioAction`].
#[verifier::ext_equal]
pub enum ActionView {
    Ask(usize),
    Inspect(usize, Seq<char>),
    Finish(Option<ResolvedView>),
}

impl View for AudioAction {
    type V = ActionView;

    open spec fn view(&self) -> ActionView {
        match *self {
            AudioAction::Ask(step) => ActionView::Ask(step),
            AudioAction::Inspect(step, url) => ActionView::Inspect(step, url@),
            AudioAction::Finish(audio) => ActionView::Finish(opt_audio(audio)),
        }
    }
}

/// What follows a resolver that gave nothing: the next one, or the end.
pub open spec fn after_failure(step: int) -> ActionView {
    if step + 1 < RESOLVERS {
        ActionView::Ask((step + 1) as usize)
    } else {
        ActionView::Finish(None)
    }
}

/// What follows the reply of a resolver: only an address of the web is
/// inspected.
pub open spec fn after_reply(step: int, address: Option<Seq<char>>) -> ActionView {
    match address {
        Some(url) if begins(url, "http"@) => ActionView::Inspect(step as usize, url),
        _ => after_failure(step),
    }
}

/// What follows the inspection of an address: a stream that was found ends the
/// search.
pub open spec fn after_inspection(step: int, found: Option<(Seq<char>, Seq<char>)>) -> ActionView {
    match found {
        Some((url, extension)) => ActionView::Finish(
            Some(ResolvedView { url, quality: resolver_quality(step), extension }),
        ),
        None => after_failure(step),
    }
}

/// The label of what a resolver gives.
pub fn quality_of_resolver(step: usize) -> (result: &'static str)
    requires
        step < RESOLVERS,
    ensures
        result@ == resolver_quality(step as int),
{
    if step == 0 || step == 1 || step == 2 || step == 5 {
        "无损"
    } else if step == 3 || step == 6 {
        "320K"
    } else if step == 4 || step == 7 {
        "128K"
    } else {
        assert(""@ =~= Seq::<char>::empty()) by {
            reveal_strlit("");
        }
        ""
    }
}

/// The request to a resolver.
pub fn audio_request(step: usize, song_id: &str) -> (result: Request)
    requires
        step < RESOLVERS,
    ensures
        result@ == resolver_request(step as int, song_id@),
{
    let mut query = no_pairs();
    let mut headers = no_pairs();
    let url: String;
    if step == 0 {
        url = "https://kw-api.cenguigui.cn/".to_owned();
        add_pair(&mut query, "id", song_id);
        add_pair(&mut query, "type", "song");
        add_pair(&mut query, "level", "lossless");
        add_pair(&mut query, "format", "json");
        add_pair(&mut headers, "User-Agent", KUWO_CGG_UA);
    } else if step == 1 {
        url = concat(concat("https://lxmusicapi.onrender.com/url/kw/", song_id).as_str(), "/flac");
        add_pair(&mut headers, "Content-Type", "application/json");
        add_pair(&mut headers, "User-Agent", "lx-music-request/2.6.0");
        add_pair(&mut headers, "X-Request-Key", "share-v3");
    } else if step < 8 {
        url = if step < 5 {
            "http://music.nxinxz.com/kw.php".to_owned()
        } else {
            "https://musicapi.haitangw.net/music/kw.php".to_owned()
        };
        add_pair(&mut query, "id", song_id);
        if step == 2 || step == 5 {
            add_pair(&mut query, "level", "lossless");
        } else if step == 3 || step == 6 {
            add_pair(&mut query, "level", "exhigh");
        } else {
            add_pair(&mut query, "level", "standard");
        }
        add_pair(&mut query, "type", "json");
        add_pair(&mut headers, "User-Agent", KUWO_UA);
    } else {
        url = "https://api.nobb.cc/kuwo.music/index.php".to_owned();
        add_pair(&mut query, "id", song_id);
        add_pair(&mut headers, "User-Agent", KUWO_UA);
    }
    Request { method: Method::Get, url, query, headers, body: Body::Empty, timeout: None }
}

/// The address in the reply of the first resolver.
pub fn first_address(envelope: KuwoAudioEnvelope) -> (result: Option<String>)
    ensures
        opt(result) == envelope_address(envelope),
{
    match envelope.data {
        Some(data) => data.url,
        None => None,
    }
}

/// The address in the reply of a resolver after the first.
pub fn audio_address(step: usize, reply: &Json) -> (result: Option<String>)
    requires
        1 <= step < RESOLVERS,
    ensures
        opt(result) == resolver_address(step as int, reply@),
{
    let address = if step == 1 || step == 8 {
        json::text_at(reply.get("url"))
    } else {
        json::text_at(json::step(json::step(Some(reply), "data"), "url"))
    };
    match address {
        Some(address) => Some(address.to_owned()),
        None => None,
    }
}

/// Begins the search for a stream.
pub fn audio_start() -> (result: AudioAction)
    ensures
        result@ == ActionView::Ask(0),
{
    AudioAction::Ask(0)
}

/// Goes on to the next resolver.
fn audio_next(step: usize) -> (result: AudioAction)
    requires
        step < RESOLVERS,
    ensures
        result@ == after_failure(step as int),
{
    if step + 1 < RESOLVERS {
        AudioAction::Ask(step + 1)
    } else {
        AudioAction::Finish(None)
    }
}

/// Decides what follows the reply of a resolver, given the address in it.
pub fn audio_reply(step: usize, address: Option<&str>) -> (result: AudioAction)
    requires
        step < RESOLVERS,
    ensures
        result@ == after_reply(step as int, opt_str(address)),
{
    match address {
        Some(url) => if text::starts_with(url, "http") {
            AudioAction::Inspect(step, url.to_owned())
        } else {
            audio_next(step)
        },
        None => audio_next(step),
    }
}

/// Decides what follows the inspection of an address.
pub fn audio_inspected(step: usize, found: Option<(String, String)>) -> (result: AudioAction)
    requires
        step < RESOLVERS,
    ensures
        result@ == after_inspection(step as int, opt_pair(found)),
{
    match found {
        Some((url, extension)) => AudioAction::Finish(
            Some(ResolvedAudio { url, quality: quality_of_resolver(step).to_owned(), extension }),
        ),
        None => audio_next(step),
    }
}

/// The stream that the search finds from a resolver on, where `addresses` are
/// what the resolvers would reply and `found` what the inspections of those
/// addresses would tell.
pub open spec fn search_from(
    step: int,
    addresses: Seq<Option<Seq<char>>>,
    found: Seq<Option<(Seq<char>, Seq<char>)>>,
) -> Option<ResolvedView>
    decreases RESOLVERS - step,
{
    if step < 0 || step >= RESOLVERS {
        None
    } else {
        let replied = after_reply(step, addresses[step]);
        let decided = match replied {
            ActionView::Inspect(_, _) => after_inspection(step, found[step]),
            other => other,
        };
        match decided {
            ActionView::Finish(audio) => audio,
            _ => search_from(step + 1, addresses, found),
        }
    }
}

/// A resolver whose address is of the web and turned out to be audio.
pub open spec fn is_sound(step: int, addresses: Seq<Option<Seq<char>>>, found: Seq<Option<(Seq<char>, Seq<char>)>>) -> bool {
    addresses[step] is Some && begins(addresses[step]->0, "http"@) && found[step] is Some
}

proof fn lemma_search_from(step: int, addresses: Seq<Option<Seq<char>>>, found: Seq<Option<(Seq<char>, Seq<char>)>>)
    requires
        0 <= step <= RESOLVERS,
    ensures
        match search_from(step, addresses, found) {
            Some(audio) => exists|winner: int|
                step <= winner < RESOLVERS && #[trigger] is_sound(winner, addresses, found) && audio == (ResolvedView {
                    url: (found[winner]->0).0,
                    quality: resolver_quality(winner),
                    extension: (found[winner]->0).1,
                }) && forall|earlier: int| step <= earlier < winner ==> !#[trigger] is_sound(earlier, addresses, found),
            None => forall|any: int| step <= any < RESOLVERS ==> !#[trigger] is_sound(any, addresses, found),
        },
    decreases RESOLVERS - step,
{
    if step < RESOLVERS {
        lemma_search_from(step + 1, addresses, found);
        if is_sound(step, addresses, found) {
            assert(search_from(step, addresses, found) is Some);
        } else {
            assert(search_from(step, addresses, found) == search_from(step + 1, addresses, found));
        }
    }
}

/// The search returns only what was inspected: the stream of the first
/// resolver whose address turned out to be audio, under that resolver's label;
/// and it returns nothing only where no resolver gave such an address.
pub proof fn first_sound_resolver_wins(addresses: Seq<Option<Seq<char>>>, found: Seq<Option<(Seq<char>, Seq<char>)>>)
    ensures
        match search_from(0, addresses, found) {
            Some(audio) => exists|winner: int|
                0 <= winner < RESOLVERS && #[trigger] is_sound(winner, addresses, found) && audio == (ResolvedView {
                    url: (found[winner]->0).0,
                    quality: resolver_quality(winner),
                    extension: (found[winner]->0).1,
                }) && forall|earlier: int| 0 <= earlier < winner ==> !#[trigger] is_sound(earlier, addresses, found),
            None => forall|any: int| 0 <= any < RESOLVERS ==> !#[trigger] is_sound(any, addresses, found),
        },
{
    lemma_search_from(0, addresses, found);
}

/// The first resolver that gives an address of audio ends the search, and the
/// lossless ones are asked before the others of their kind: what they give is
/// shown as lossless, and a lower tier under its rate.
pub proof fn resolvers_have_their_labels(step: int, url: Seq<char>, extension: Seq<char>, rest: Seq<char>)
    requires
        0 <= step < RESOLVERS,
    ensures
        after_reply(step, Some("http"@ + rest)) == ActionView::Inspect(step as usize, "http"@ + rest),
        !begins(url, "http"@) ==> after_reply(step, Some(url)) == after_reply(step, None),
        step < RESOLVERS - 1 ==> after_reply(step, None) == ActionView::Ask((step + 1) as usize),
        step == RESOLVERS - 1 ==> after_reply(step, None) == ActionView::Finish(None),
        step == 8 ==> after_reply(step, None) == ActionView::Finish(None),
        after_inspection(step, None) == after_reply(step, None),
        after_inspection(step, Some((url, extension))) matches ActionView::Finish(Some(audio)) && audio.url == url
            && audio.extension == extension && (audio.quality == "无损"@ <==> (step <= 2 || step == 5)) && ((step == 3
            || step == 6) ==> audio.quality == "320K"@) && ((step == 4 || step == 7) ==> audio.quality == "128K"@) && (
        step == 8 ==> audio.quality.len() == 0),
{
    text::prefixes_are_taken_off("http"@, rest, url);
    reveal_strlit("无损");
    reveal_strlit("320K");
    reveal_strlit("128K");
    assert("无损"@.len() == 2 && "320K"@.len() == 4 && "128K"@.len() == 4);
}

/// Every resolver is asked for the song that is wanted.
pub proof fn resolvers_are_asked_for_the_song(step: int, song_id: Seq<char>)
    requires
        0 <= step < RESOLVERS,
    ensures
        step != 1 ==> resolver_request(step, song_id).query.contains(("id"@, song_id)),
        step == 1 ==> contains_text(resolver_request(step, song_id).url, song_id),
        step == 2 || step == 5 ==> resolver_request(step, song_id).query.contains(("level"@, "lossless"@)),
        step == 3 || step == 6 ==> resolver_request(step, song_id).query.contains(("level"@, "exhigh"@)),
        step == 4 || step == 7 ==> resolver_request(step, song_id).query.contains(("level"@, "standard"@)),
        lyrics_request_view(song_id).query.contains(("musicId"@, song_id)),
        inspect_request_view(song_id).url == song_id,
        inspect_request_view(song_id).headers.contains(("Range"@, "bytes=0-8191"@)),
{
    if step == 1 {
        text::parts_are_found("https://lxmusicapi.onrender.com/url/kw/"@, song_id, "/flac"@);
    } else {
        assert(resolver_request(step, song_id).query[0] == ("id"@, song_id));
    }
    if 2 <= step < 8 {
        assert(resolver_request(step, song_id).query[1] == ("level"@, resolver_level(step)));
    }
    assert(lyrics_request_view(song_id).query[0] == ("musicId"@, song_id));
    assert(inspect_request_view(song_id).headers[1] == ("Range"@, "bytes=0-8191"@));
}

/// The address in a reply is read where the resolver puts it.
pub proof fn resolvers_are_read(step: int, reply: JsonView, inner: JsonView, url: Seq<char>)
    ensures
        (step == 1 || step == 8) && field(reply, "url"@) == Some(JsonView::Text(url)) ==> resolver_address(step, reply)
            == Some(url),
        2 <= step <= 7 && child(Some(reply), "data"@) == Some(inner) && child(Some(inner), "url"@) == Some(
            JsonView::Text(url),
        ) ==> resolver_address(step, reply) == Some(url),
        2 <= step <= 7 && child(Some(reply), "data"@) is None ==> resolver_address(step, reply) is None,
{
}

// ---------------------------------------------------------------------------
// Search
// ---------------------------------------------------------------------------

/// The search for a page of the songs of a query. Callers count pages from one,
/// Kuwo from zero; page zero is the first one too.
pub open spec fn search_request_view(query: Seq<char>, limit: nat, page: nat) -> RequestView {
    RequestView {
        method: Method::Get,
        url: "https://www.kuwo.cn/search/searchMusicBykeyWord"@,
        query: seq![
            ("vipver"@, "1"@),
            ("client"@, "kt"@),
            ("ft"@, "music"@),
            ("cluster"@, "0"@),
            ("strategy"@, "2012"@),
            ("encoding"@, "utf8"@),
            ("rformat"@, "json"@),
            ("mobi"@, "1"@),
            ("issubtitle"@, "1"@),
            ("show_copyright_off"@, "1"@),
            ("pn"@, decimal(if page == 0 {
                0
            } else {
                (page - 1) as nat
            })),
            ("rn"@, decimal(limit)),
            ("all"@, query),
        ],
        headers: seq![
            ("User-Agent"@, KUWO_UA@),
            ("Referer"@, "https://www.kuwo.cn/"@),
            ("Origin"@, "https://www.kuwo.cn"@),
        ],
        body: BodyView::Empty,
        timeout: None,
    }
}

/// The search for a page of the songs of a query.
pub fn search_request(query: &str, limit: usize, page: u32) -> (result: Request)
    ensures
        result@ == search_request_view(query@, limit as nat, page as nat),
{
    let place: u32 = if page == 0 {
        0
    } else {
        page - 1
    };
    let mut pairs = no_pairs();
    add_pair(&mut pairs, "vipver", "1");
    add_pair(&mut pairs, "client", "kt");
    add_pair(&mut pairs, "ft", "music");
    add_pair(&mut pairs, "cluster", "0");
    add_pair(&mut pairs, "strategy", "2012");
    add_pair(&mut pairs, "encoding", "utf8");
    add_pair(&mut pairs, "rformat", "json");
    add_pair(&mut pairs, "mobi", "1");
    add_pair(&mut pairs, "issubtitle", "1");
    add_pair(&mut pairs, "show_copyright_off", "1");
    add_pair(&mut pairs, "pn", text::number_text(place as u64).as_str());
    add_pair(&mut pairs, "rn", text::number_text(limit as u64).as_str());
    add_pair(&mut pairs, "all", query);
    let mut headers = no_pairs();
    add_pair(&mut headers, "User-Agent", KUWO_UA);
    add_pair(&mut headers, "Referer", "https://www.kuwo.cn/");
    add_pair(&mut headers, "Origin", "https://www.kuwo.cn");
    Request {
        method: Method::Get,
        url: "https://www.kuwo.cn/search/searchMusicBykeyWord".to_owned(),
        query: pairs,
        headers,
        body: Body::Empty,
        timeout: None,
    }
}

/// Two pages of a query are asked for by different requests.
pub proof fn pages_are_told_apart(query: Seq<char>, limit: nat, page: u32, other: u32)
    requires
        0 < page,
        0 < other,
        page != other,
    ensures
        search_request_view(query, limit, page as nat) != search_request_view(query, limit, other as nat),
{
    let left = search_request_view(query, limit, page as nat);
    let right = search_request_view(query, limit, other as nat);
    assert(left.query[10].1 == decimal((page - 1) as nat));
    assert(right.query[10].1 == decimal((other - 1) as nat));
    if left == right {
        text::decimal_is_injective((page - 1) as u64, (other - 1) as u64);
    }
}

/// A search asks for what the user typed, for so many songs and for the page
/// that is wanted, counted from zero.
pub proof fn searches_ask_for_the_query(query: Seq<char>, limit: nat, page: u32)
    requires
        page > 0,
    ensures
        search_request_view(query, limit, page as nat).query.contains(("all"@, query)),
        search_request_view(query, limit, page as nat).query.contains(("rn"@, decimal(limit))),
        search_request_view(query, limit, page as nat).query.contains(("pn"@, decimal((page - 1) as nat))),
        search_request_view(query, limit, 0) == search_request_view(query, limit, 1),
        search_request_view(query, limit, page as nat).method == Method::Get,
{
    let pairs = search_request_view(query, limit, page as nat).query;
    assert(pairs[12] == ("all"@, query));
    assert(pairs[11] == ("rn"@, decimal(limit)));
    assert(pairs[10] == ("pn"@, decimal((page - 1) as nat)));
}

/// The document in a search reply, which may be wrapped in a call of
/// `callback`.
pub open spec fn search_payload(raw: Seq<char>) -> Seq<char> {
    let payload = trimmed(raw);
    match without_prefix(payload, "callback("@) {
        Some(rest) => match without_suffix(rest, ")"@) {
            Some(inner) => inner,
            None => payload,
        },
        None => payload,
    }
}

/// The document in a search reply.
pub fn unwrap_payload<'a>(raw: &'a str) -> (result: &'a str)
    ensures
        result@ == search_payload(raw@),
{
    let payload = text::trim(raw);
    match text::strip_prefix(payload, "callback(") {
        Some(rest) => match text::strip_suffix(rest, ")") {
            Some(inner) => inner,
            None => payload,
        },
        None => payload,
    }
}

/// A reply is read with its wrapping and white space or without, and comes to
/// the same.
pub proof fn wrapping_comes_off(lead: Seq<char>, document: Seq<char>, trail: Seq<char>)
    requires
        text::is_blank(lead),
        text::is_blank(trail),
        document.len() > 0,
        !text::is_space(document[0]),
        !text::is_space(document.last()),
    ensures
        search_payload(lead + ("callback("@ + document + ")"@) + trail) == document,
        !begins(document, "callback("@) ==> search_payload(lead + document + trail) == document,
{
    reveal_strlit("callback(");
    reveal_strlit(")");
    let wrapped = "callback("@ + document + ")"@;
    text::trimming_takes_white_space_alone(lead, wrapped, trail);
    text::trimming_takes_white_space_alone(lead, document, trail);
    assert(wrapped =~= "callback("@ + (document + ")"@));
    text::prefixes_are_taken_off("callback("@, document + ")"@, document);
    text::suffixes_are_taken_off(document, ")"@, document);
}

/// The songs in a search document.
pub open spec fn songs_in(document: JsonView) -> Seq<JsonView> {
    match as_list(field(document, "abslist"@)) {
        Some(songs) => songs,
        None => Seq::empty(),
    }
}

/// The message for a search reply that does not parse.
pub open spec fn search_complaint(error: Seq<char>, payload: Seq<char>) -> Seq<char> {
    "酷我音乐搜索数据解析失败: "@ + error + "; 响应: "@ + leading(payload, 120)
}

/// The songs in a search document.
pub fn songs_of(document: &Json) -> (result: Vec<Json>)
    ensures
        list_view(result@) == songs_in(document@),
{
    let songs = json::list_or_default(document.get("abslist"));
    assert(list_view(songs@) =~= songs_in(document@));
    songs
}

/// The message for a search reply that does not parse.
pub fn complain(error: &str, payload: &str) -> (result: String)
    ensures
        result@ == search_complaint(error@, payload@),
{
    let mut message = concat("酷我音乐搜索数据解析失败: ", error);
    message.append("; 响应: ");
    message.append(text::take_chars(payload, 120));
    message
}

/// The songs in a search reply, or the message that it does not parse.
pub open spec fn songs_found(raw: Seq<char>) -> Result<Seq<JsonView>, Seq<char>> {
    match json::json_document(vstd::utf8::encode_utf8(search_payload(raw))) {
        Ok(document) => Ok(songs_in(document)),
        Err(error) => Err(search_complaint(error, search_payload(raw))),
    }
}

/// A reply gives the songs of its document, wrapped or not; one that does not
/// parse is told with the error and with how the reply begins.
pub proof fn replies_are_read_or_told(raw: Seq<char>, document: Seq<char>, error: Seq<char>)
    requires
        search_payload(raw) == document,
    ensures
        json::json_document(vstd::utf8::encode_utf8(document)) matches Ok(value) ==> songs_found(raw) == Ok::<
            Seq<JsonView>,
            Seq<char>,
        >(songs_in(value)),
        json::json_document(vstd::utf8::encode_utf8(document)) == Err::<JsonView, Seq<char>>(error) && document.len()
            <= 120 ==> songs_found(raw) == Err::<Seq<JsonView>, Seq<char>>(
            "酷我音乐搜索数据解析失败: "@ + error + "; 响应: "@ + document,
        ),
        json::json_document(vstd::utf8::encode_utf8(document)) == Err::<JsonView, Seq<char>>(error) && document.len()
            > 120 ==> songs_found(raw) == Err::<Seq<JsonView>, Seq<char>>(
            "酷我音乐搜索数据解析失败: "@ + error + "; 响应: "@ + document.take(120),
        ),
{
}

/// Reads the songs in a search reply.
pub fn search_songs(raw: &str) -> (result: Result<Vec<Json>, String>)
    ensures
        songs_found(raw@) == (match result {
            Ok(songs) => Ok::<Seq<JsonView>, Seq<char>>(list_view(songs@)),
            Err(message) => Err::<Seq<JsonView>, Seq<char>>(message@),
        }),
{
    let payload = unwrap_payload(raw);
    match json::parse_json(payload.as_bytes()) {
        Ok(document) => Ok(songs_of(&document)),
        Err(error) => Err(complain(error.as_str(), payload)),
    }
}

/// The seconds that a song lasts by its card, zero where it does not say.
pub open spec fn card_seconds(song: JsonView) -> u64 {
    match as_text(either(field(song, "DURATION"@), field(song, "duration"@))) {
        Some(duration) => match number_of(duration) {
            Some(seconds) => seconds,
            None => 0,
        },
        None => 0,
    }
}

/// What is sent along when a stream of Kuwo is fetched.
pub open spec fn kuwo_payload() -> JsonView {
    JsonView::Record(
        seq![("downloadHeaders"@, JsonView::Record(seq![("User-Agent"@, JsonView::Text(KUWO_UA@))]))],
    )
}

/// The track of a search card, which has to name its song.
pub open spec fn track_of_card(song: JsonView) -> Option<TrackView> {
    match as_text(either(field(song, "MUSICRID"@), field(song, "musicrid"@))) {
        Some(rid) => Some(
            TrackView {
                id: "kuwo:"@ + stripped_start(rid, "MUSIC_"@),
                source: "KuwoMusicClient"@,
                title: text_or_empty(
                    either(
                        either(either(field(song, "SONGNAME"@), field(song, "NAME"@)), field(song, "songName"@)),
                        field(song, "name"@),
                    ),
                ),
                artist: text_or_empty(either(field(song, "ARTIST"@), field(song, "artist"@))),
                album: text_or_empty(either(field(song, "ALBUM"@), field(song, "album"@))),
                artwork_url: text_or_empty(
                    either(either(field(song, "hts_MVPIC"@), field(song, "albumpic"@)), field(song, "pic"@)),
                ),
                audio_url: Seq::empty(),
                duration_ms: (card_seconds(song) * 1000) as u64,
                format: None,
                quality: None,
                adapter_payload: Some(kuwo_payload()),
            },
        ),
        None => None,
    }
}

/// A card becomes the track of its song: title, artist, album and length are the
/// card's, the identifier leads back to the song, and it is a track of Kuwo that
/// has no address yet. A card that names no song becomes none.
pub proof fn cards_become_their_songs(
    song: JsonView,
    rid: Seq<char>,
    title: Seq<char>,
    artist: Seq<char>,
    album: Seq<char>,
    picture: Seq<char>,
    seconds: u64,
    message: Seq<char>,
)
    requires
        field(song, "MUSICRID"@) == Some(JsonView::Text("MUSIC_"@ + rid)),
        !begins(rid, "MUSIC_"@),
        field(song, "SONGNAME"@) == Some(JsonView::Text(title)),
        field(song, "ARTIST"@) == Some(JsonView::Text(artist)),
        field(song, "ALBUM"@) == Some(JsonView::Text(album)),
        field(song, "hts_MVPIC"@) == Some(JsonView::Text(picture)),
        field(song, "DURATION"@) == Some(JsonView::Text(decimal(seconds as nat))),
        seconds * 1000 <= u64::MAX,
    ensures
        track_of_card(song) matches Some(track) && track.title == title && track.artist == artist && track.album == album
            && track.artwork_url == picture && track.duration_ms == seconds * 1000 && track.audio_url.len() == 0
            && track.source == sources::source_id(sources::Source::Kuwo) && song_of(track, "kuwo:"@, message) == Ok::<
            Seq<char>,
            Seq<char>,
        >(rid) && lookup_of(track, "kuwo:"@, message) == sources::LookupView::Song(rid),
{
    reveal_strlit("MUSIC_");
    text::marks_are_stripped("MUSIC_"@, rid);
    text::decimal_reads_back(seconds);
    let track = track_of_card(song)->0;
    sources::songs_are_looked_up_by_their_identifier(track, "kuwo:"@, rid, message);
}

/// The newer names of the fields of a card stand in where the older ones are
/// missing; a card without an identifier is no song.
pub proof fn other_names_stand_in(
    song: JsonView,
    rid: Seq<char>,
    title: Seq<char>,
    artist: Seq<char>,
    album: Seq<char>,
    picture: Seq<char>,
)
    ensures
        field(song, "MUSICRID"@) is None && field(song, "musicrid"@) is None ==> track_of_card(song) is None,
        field(song, "MUSICRID"@) is None && field(song, "musicrid"@) == Some(JsonView::Text(rid)) ==> (track_of_card(song)
            matches Some(track) && track.id == "kuwo:"@ + stripped_start(rid, "MUSIC_"@) && (field(song, "SONGNAME"@)
            is None && field(song, "NAME"@) == Some(JsonView::Text(title)) ==> track.title == title) && (field(
            song,
            "SONGNAME"@,
        ) is None && field(song, "NAME"@) is None && field(song, "songName"@) == Some(JsonView::Text(title))
            ==> track.title == title) && (field(song, "SONGNAME"@) is None && field(song, "NAME"@) is None && field(
            song,
            "songName"@,
        ) is None && field(song, "name"@) == Some(JsonView::Text(title)) ==> track.title == title) && (field(
            song,
            "ARTIST"@,
        ) is None && field(song, "artist"@) == Some(JsonView::Text(artist)) ==> track.artist == artist) && (field(
            song,
            "ALBUM"@,
        ) is None && field(song, "album"@) == Some(JsonView::Text(album)) ==> track.album == album) && (field(
            song,
            "hts_MVPIC"@,
        ) is None && field(song, "albumpic"@) == Some(JsonView::Text(picture)) ==> track.artwork_url == picture) && (
        field(song, "hts_MVPIC"@) is None && field(song, "albumpic"@) is None && field(song, "pic"@) == Some(
            JsonView::Text(picture),
        ) ==> track.artwork_url == picture)),
{
}

/// The length of a song is read from either field, and is zero where the card
/// does not tell it in digits.
pub proof fn lengths_are_read(song: JsonView, seconds: u64)
    ensures
        field(song, "DURATION"@) is None && field(song, "duration"@) == Some(JsonView::Text(decimal(seconds as nat)))
            ==> card_seconds(song) == seconds,
        field(song, "DURATION"@) is None && field(song, "duration"@) is None ==> card_seconds(song) == 0,
        field(song, "DURATION"@) == Some(JsonView::Text(Seq::empty())) ==> card_seconds(song) == 0,
{
    text::decimal_reads_back(seconds);
}

/// The seconds that a song lasts by its card.
pub fn seconds_of_card(song: &Json) -> (result: u64)
    ensures
        result == card_seconds(song@),
{
    match json::text_at(json::first_of(song.get("DURATION"), song.get("duration"))) {
        Some(duration) => match text::parse_number(duration) {
            Some(seconds) => seconds,
            None => 0,
        },
        None => 0,
    }
}

/// The milliseconds of a card can be counted in 64 bits, if it names its song.
pub open spec fn is_countable(song: JsonView) -> bool {
    as_text(either(field(song, "MUSICRID"@), field(song, "musicrid"@))) is Some ==> card_seconds(song) * 1000
        <= u64::MAX
}

/// Every card of an ordinary length can be counted, and so can one without an
/// identifier; a named song is countable exactly if its milliseconds fit.
pub proof fn ordinary_cards_are_countable(song: JsonView, rid: Seq<char>)
    ensures
        card_seconds(song) <= 18_446_744_073_709_551 ==> is_countable(song),
        field(song, "MUSICRID"@) is None && field(song, "musicrid"@) is None ==> is_countable(song),
        field(song, "MUSICRID"@) == Some(JsonView::Text(rid)) && card_seconds(song) > 18_446_744_073_709_551
            ==> !is_countable(song),
        field(song, "MUSICRID"@) is None && field(song, "musicrid"@) == Some(JsonView::Text(rid)) && card_seconds(song)
            > 18_446_744_073_709_551 ==> !is_countable(song),
{
}

/// Tells whether the milliseconds of a card can be counted in 64 bits.
pub fn card_fits(song: &Json) -> (result: bool)
    ensures
        result == is_countable(song@),
{
    json::text_at(json::first_of(song.get("MUSICRID"), song.get("musicrid"))).is_none() || seconds_of_card(song)
        <= u64::MAX / 1000
}

/// The track of a search card.
pub fn track_from_value(song: &Json) -> (result: Option<Track>)
    requires
        is_countable(song@),
    ensures
        opt_track(result) == track_of_card(song@),
{
    let rid = match json::text_at(json::first_of(song.get("MUSICRID"), song.get("musicrid"))) {
        Some(rid) => rid,
        None => {
            return None;
        },
    };
    let title = json::text_or_default(
        json::first_of(
            json::first_of(json::first_of(song.get("SONGNAME"), song.get("NAME")), song.get("songName")),
            song.get("name"),
        ),
    );
    let artist = json::text_or_default(json::first_of(song.get("ARTIST"), song.get("artist")));
    let album = json::text_or_default(json::first_of(song.get("ALBUM"), song.get("album")));
    let artwork_url = json::text_or_default(
        json::first_of(json::first_of(song.get("hts_MVPIC"), song.get("albumpic")), song.get("pic")),
    );
    let mut agents = json::no_fields();
    json::put(&mut agents, "User-Agent", json::text_value(KUWO_UA));
    let mut payload = json::no_fields();
    json::put(&mut payload, "downloadHeaders", json::record(agents));
    let payload = json::record(payload);
    let track = Track {
        id: concat("kuwo:", text::strip_start(rid, "MUSIC_")),
        source: "KuwoMusicClient".to_owned(),
        title,
        artist,
        album,
        artwork_url,
        audio_url: String::new(),
        duration_ms: seconds_of_card(song) * 1000,
        format: None,
        quality: None,
        adapter_payload: Some(payload),
    };
    Some(track)
}

/// The tracks of the cards that name their songs.
pub open spec fn tracks_of_cards(songs: Seq<JsonView>) -> Seq<TrackView>
    decreases songs.len(),
{
    if songs.len() == 0 {
        Seq::empty()
    } else {
        let before = tracks_of_cards(songs.drop_last());
        match track_of_card(songs.last()) {
            Some(track) => before.push(track),
            None => before,
        }
    }
}

/// The first songs of a list, at most `limit` of them.
pub open spec fn first_songs(songs: Seq<JsonView>, limit: nat) -> Seq<JsonView> {
    if songs.len() <= limit {
        songs
    } else {
        songs.take(limit as int)
    }
}

proof fn lemma_tracks_of_cards(songs: Seq<JsonView>)
    ensures
        tracks_of_cards(songs).len() <= songs.len(),
    decreases songs.len(),
{
    if songs.len() > 0 {
        lemma_tracks_of_cards(songs.drop_last());
    }
}

/// A search never gives more tracks than it was asked for.
pub proof fn searches_keep_to_the_limit(songs: Seq<JsonView>, limit: nat)
    ensures
        tracks_of_cards(first_songs(songs, limit)).len() <= limit,
{
    lemma_tracks_of_cards(first_songs(songs, limit));
}

/// A search shows the songs of its first cards, in their order; a card that
/// names no song is left out.
pub proof fn searches_show_every_card(songs: Seq<JsonView>, song: JsonView, limit: nat)
    ensures
        track_of_card(song) matches Some(track) ==> tracks_of_cards(songs.push(song)) == tracks_of_cards(songs).push(
            track,
        ),
        track_of_card(song) is None ==> tracks_of_cards(songs.push(song)) == tracks_of_cards(songs),
        tracks_of_cards(Seq::empty()).len() == 0,
        songs.len() <= limit ==> first_songs(songs, limit) == songs,
        first_songs(songs, limit).len() <= limit,
        forall|i: int| 0 <= i < first_songs(songs, limit).len() ==> #[trigger] first_songs(songs, limit)[i] == songs[i],
        songs.len() >= limit ==> first_songs(songs, limit).len() == limit,
{
    assert(songs.push(song).drop_last() =~= songs);
}

/// The songs of a reply are those of its list, all of them and in their order.
pub proof fn replies_give_their_songs(document: JsonView, songs: Seq<JsonView>)
    ensures
        field(document, "abslist"@) == Some(JsonView::List(songs)) ==> songs_in(document) == songs,
        field(document, "abslist"@) is None ==> songs_in(document).len() == 0,
{
}

/// The tracks of the first `limit` songs of a search, without those that do
/// not name their song.
pub fn tracks_from_songs(songs: &Vec<Json>, limit: usize) -> (result: Vec<Track>)
    requires
        forall|i: int| 0 <= i < songs@.len() && i < limit ==> is_countable((#[trigger] songs@[i])@),
    ensures
        tracks_view(result@) == tracks_of_cards(first_songs(list_view(songs@), limit as nat)),
{
    let mut tracks: Vec<Track> = Vec::new();
    let size: usize = if songs.len() <= limit {
        songs.len()
    } else {
        limit
    };
    let ghost views = first_songs(list_view(songs@), limit as nat);
    let mut i: usize = 0;
    assert(views.take(0).len() == 0);
    assert(tracks_view(tracks@) =~= Seq::<TrackView>::empty());
    while i < size
        invariant
            i <= size <= songs@.len(),
            views.len() == size,
            forall|j: int| 0 <= j < size ==> views[j] == (#[trigger] songs@[j])@,
            forall|j: int| 0 <= j < size ==> is_countable((#[trigger] songs@[j])@),
            tracks_view(tracks@) == tracks_of_cards(views.take(i as int)),
        decreases size - i,
    {
        assert(views.take(i + 1).drop_last() =~= views.take(i as int));
        assert(views.take(i + 1).last() == songs@[i as int]@);
        let ghost before = tracks@;
        match track_from_value(&songs[i]) {
            Some(track) => {
                tracks.push(track);
                assert(tracks_view(tracks@) =~= tracks_view(before).push(track@));
            },
            None => {},
        }
        i += 1;
    }
    assert(views.take(i as int) =~= views);
    tracks
}

// ---------------------------------------------------------------------------
// Resolving a track
// ---------------------------------------------------------------------------

/// A track with the stream that was found for it, or the message that none
/// was.
pub open spec fn with_audio(track: TrackView, audio: Option<ResolvedView>) -> Result<TrackView, Seq<char>> {
    match audio {
        Some(audio) => Ok(
            TrackView {
                audio_url: audio.url,
                format: Some(in_capitals(audio.extension)),
                quality: if audio.quality.len() == 0 {
                    None
                } else {
                    Some(audio.quality)
                },
                ..track
            },
        ),
        None => Err("酷我音乐未返回可用音频地址"@),
    }
}

/// The stream of a song that was found by searching is fetched with the headers
/// of its source, before it is resolved and after.
pub proof fn source_headers_are_sent(song: JsonView, audio: Option<ResolvedView>)
    ensures
        track_of_card(song) matches Some(track) ==> stream_headers_of(track) == seq![("User-Agent"@, KUWO_UA@)] && (
        with_audio(track, audio) matches Ok(resolved) ==> stream_headers_of(resolved) == seq![
            ("User-Agent"@, KUWO_UA@),
        ]),
{
    let agent = ("User-Agent"@, KUWO_UA@);
    let headers = JsonView::Record(seq![(agent.0, JsonView::Text(agent.1))]);
    assert(kuwo_payload()->Record_0 =~= Seq::empty().push(("downloadHeaders"@, headers)));
    json::last_value_counts(Seq::empty(), "downloadHeaders"@, headers);
    match track_of_card(song) {
        Some(track) => {
            kept_headers_are_sent(track, kuwo_payload(), agent, agent);
            match with_audio(track, audio) {
                Ok(resolved) => {
                    kept_headers_are_sent(resolved, kuwo_payload(), agent, agent);
                },
                Err(_) => {},
            }
        },
        None => {},
    }
}

/// Resolving a track fills in what was found and keeps the rest; a track is
/// refused only where no stream was found.
pub proof fn resolved_tracks_have_their_stream(track: TrackView, audio: ResolvedView)
    ensures
        with_audio(track, None) == Err::<TrackView, Seq<char>>("酷我音乐未返回可用音频地址"@),
        with_audio(track, Some(audio)) matches Ok(resolved) && resolved.audio_url == audio.url && (audio.quality.len()
            > 0 ==> resolved.quality == Some(audio.quality)) && (audio.quality.len() == 0 ==> resolved.quality is None)
            && resolved.format == Some(in_capitals(audio.extension)) && resolved.id == track.id && resolved.source
            == track.source && resolved.title == track.title && resolved.artist == track.artist && resolved.album
            == track.album && resolved.artwork_url == track.artwork_url && resolved.duration_ms == track.duration_ms
            && resolved.adapter_payload == track.adapter_payload,
{
}

/// What has to be done to make a track of Kuwo playable.
pub open spec fn kuwo_lookup(track: TrackView) -> sources::LookupView {
    lookup_of(track, "kuwo:"@, "歌曲标识不属于酷我音乐"@)
}

/// The song of Kuwo that a track is.
pub open spec fn kuwo_song(track: TrackView) -> Result<Seq<char>, Seq<char>> {
    song_of(track, "kuwo:"@, "歌曲标识不属于酷我音乐"@)
}

/// What was found by searching is looked up, and its lyrics are asked for, under
/// the identifier of its card; a track of another source is refused.
pub proof fn found_songs_are_looked_up(song: JsonView, rid: Seq<char>, other: TrackView)
    ensures
        field(song, "MUSICRID"@) == Some(JsonView::Text(rid)) && !begins(rid, "MUSIC_"@) ==> (track_of_card(song)
            matches Some(track) && kuwo_lookup(track) == sources::LookupView::Song(rid) && kuwo_song(track) == Ok::<
            Seq<char>,
            Seq<char>,
        >(rid)),
        !begins(other.id, "kuwo:"@) ==> kuwo_song(other) is Err,
        !begins(other.id, "kuwo:"@) && text::is_blank(other.audio_url) ==> kuwo_lookup(other) is Foreign,
        !text::is_blank(other.audio_url) ==> kuwo_lookup(other) == sources::LookupView::Ready,
{
    reveal_strlit("MUSIC_");
    text::marks_are_stripped("MUSIC_"@, rid);
    if track_of_card(song) is Some {
        sources::songs_are_looked_up_by_their_identifier(
            track_of_card(song)->0,
            "kuwo:"@,
            rid,
            "歌曲标识不属于酷我音乐"@,
        );
    }
    sources::songs_are_looked_up_by_their_identifier(other, "kuwo:"@, rid, "歌曲标识不属于酷我音乐"@);
}

/// Decides what has to be done to make a track of Kuwo playable.
pub fn resolve_start(track: &Track) -> (result: Lookup)
    ensures
        result@ == kuwo_lookup(track@),
{
    sources::lookup(track, "kuwo:", "歌曲标识不属于酷我音乐")
}

/// Fills in the stream that was found for a track.
pub fn resolve_track(track: &Track, audio: Option<ResolvedAudio>) -> (result: Result<Track, String>)
    ensures
        track_result(result) == with_audio(track@, opt_audio(audio)),
{
    match audio {
        Some(audio) => {
            let mut resolved = track.clone();
            resolved.format = Some(text::to_upper(audio.extension.as_str()));
            resolved.quality = if audio.quality.as_str().is_empty() {
                None
            } else {
                Some(audio.quality)
            };
            resolved.audio_url = audio.url;
            Ok(resolved)
        },
        None => Err("酷我音乐未返回可用音频地址".to_owned()),
    }
}

// ---------------------------------------------------------------------------
// Lyrics
// ---------------------------------------------------------------------------

/// A line of lyrics with the time at which it is sung, as `minutes:seconds`;
/// `None` where the source gave no time.
#[derive(Debug, Clone)]
pub struct LyricLine {
    pub stamp: Option<String>,
    pub words: String,
}

/// The lines that have a time, each after its time in square brackets.
pub open spec fn stamped_lines(lines: Seq<LyricLine>) -> Seq<Seq<char>>
    decreases lines.len(),
{
    if lines.len() == 0 {
        Seq::empty()
    } else {
        let before = stamped_lines(lines.drop_last());
        match lines.last().stamp {
            Some(stamp) => before.push("["@ + stamp@ + "]"@ + lines.last().words@),
            None => before,
        }
    }
}

/// The request for the lyrics of a song.
pub open spec fn lyrics_request_view(song_id: Seq<char>) -> RequestView {
    RequestView {
        method: Method::Get,
        url: "https://kuwo.cn/openapi/v1/www/lyric/getlyric"@,
        query: seq![("musicId"@, song_id)],
        headers: seq![("Referer"@, "https://www.kuwo.cn/"@)],
        body: BodyView::Empty,
        timeout: None,
    }
}

/// The song whose lyrics belong to a track.
pub fn lyrics_start(track: &Track) -> (result: Result<String, String>)
    ensures
        sources::result_view(result) == kuwo_song(track@),
{
    sources::song_id(track, "kuwo:", "歌曲标识不属于酷我音乐")
}

/// The request for the lyrics of a song.
pub fn lyrics_request(song_id: &str) -> (result: Request)
    ensures
        result@ == lyrics_request_view(song_id@),
{
    let mut query = no_pairs();
    add_pair(&mut query, "musicId", song_id);
    let mut headers = no_pairs();
    add_pair(&mut headers, "Referer", "https://www.kuwo.cn/");
    Request {
        method: Method::Get,
        url: "https://kuwo.cn/openapi/v1/www/lyric/getlyric".to_owned(),
        query,
        headers,
        body: Body::Empty,
        timeout: None,
    }
}

/// The lines of lyrics together, one below the other; nothing where no line has a
/// time.
pub open spec fn lyrics_of(lines: Seq<LyricLine>) -> Option<Seq<char>> {
    let lyrics = joined(stamped_lines(lines), "\n"@);
    if lyrics.len() == 0 {
        None
    } else {
        Some(lyrics)
    }
}

/// Lines with times are shown one below the other; without any there are no
/// lyrics.
pub proof fn lyrics_are_shown_line_by_line(line: LyricLine, next: LyricLine)
    requires
        line.stamp is Some,
        next.stamp is Some,
    ensures
        lyrics_of(Seq::empty()) is None,
        lyrics_of(seq![line]) == Some("["@ + line.stamp->0@ + "]"@ + line.words@),
        lyrics_of(seq![line, next]) == Some(
            "["@ + line.stamp->0@ + "]"@ + line.words@ + "\n"@ + ("["@ + next.stamp->0@ + "]"@ + next.words@),
        ),
{
    reveal_strlit("[");
    let none = Seq::<LyricLine>::empty();
    let first = "["@ + line.stamp->0@ + "]"@ + line.words@;
    let second = "["@ + next.stamp->0@ + "]"@ + next.words@;
    assert(seq![line] =~= none.push(line));
    assert(seq![line, next] =~= none.push(line).push(next));
    timed_lines_are_shown(none, line);
    timed_lines_are_shown(none.push(line), next);
    let no_words = Seq::<Seq<char>>::empty();
    assert(stamped_lines(none) =~= no_words);
    assert(no_words.push(first) =~= seq![first]);
    text::parts_are_joined_in_order(no_words, first, "\n"@);
    text::parts_are_joined_in_order(seq![first], second, "\n"@);
}

/// Puts the lines of lyrics together, one below the other; nothing where no
/// line has a time.
pub fn lyrics_text(lines: &Vec<LyricLine>) -> (result: Option<String>)
    ensures
        opt(result) == lyrics_of(lines@),
{
    let mut stamped: Vec<String> = Vec::new();
    let mut i: usize = 0;
    assert(lines@.take(0).len() == 0);
    assert(texts(stamped@) =~= Seq::<Seq<char>>::empty());
    while i < lines.len()
        invariant
            i <= lines@.len(),
            texts(stamped@) == stamped_lines(lines@.take(i as int)),
        decreases lines.len() - i,
    {
        assert(lines@.take(i + 1).drop_last() =~= lines@.take(i as int));
        assert(lines@.take(i + 1).last() == lines@[i as int]);
        let ghost before = stamped@;
        match &lines[i].stamp {
            Some(stamp) => {
                let mut line = concat("[", stamp.as_str());
                line.append("]");
                line.append(lines[i].words.as_str());
                stamped.push(line);
                assert(texts(stamped@) =~= texts(before).push(line@));
            },
            None => {},
        }
        i += 1;
    }
    assert(lines@.take(i as int) =~= lines@);
    let lyrics = text::join(&stamped, "\n");
    if lyrics.as_str().is_empty() {
        None
    } else {
        Some(lyrics)
    }
}

/// Every line that has a time is shown behind it, in the order of the lines; a
/// line without one is left out.
pub proof fn timed_lines_are_shown(lines: Seq<LyricLine>, line: LyricLine)
    ensures
        line.stamp is None ==> stamped_lines(lines.push(line)) == stamped_lines(lines),
        line.stamp matches Some(stamp) ==> stamped_lines(lines.push(line)) == stamped_lines(lines).push(
            "["@ + stamp@ + "]"@ + line.words@,
        ),
        stamped_lines(Seq::empty()).len() == 0,
{
    assert(lines.push(line).drop_last() =~= lines);
}

} // verus!
