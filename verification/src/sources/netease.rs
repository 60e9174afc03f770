//! NetEase Cloud Music.
use crate::domain::{tracks_view, Track, TrackView};
use crate::headers;
use crate::json::{self, as_text, child, field, fields_view, no_fields, opt_ref, put, record, text_value, Json, JsonView, Number};
use crate::order::{self, arranged, greater_first, sorted_places};
use crate::playback::{kept_headers_are_sent, stream_headers_of};
use crate::request::{add_pair, no_pairs, pairs_view, Body, BodyView, Method, Request, RequestView};
use crate::sources::{self, short_extension, song_of, track_result};
use crate::text::{self, begins, concat, contains_text, decimal, in_capitals, is_blank, joined, lowered, number_of, occurs_at, opt, opt_pair, opt_str, texts, without_prefix};
use vstd::prelude::*;
use vstd::string::*;

verus! {

pub const NETEASE_UA: &'static str = "Mozilla/5.0 (Windows NT 10.0; Win64; x64) AppleWebKit/537.36 (KHTML, like Gecko) Chrome/148.0.0.0 Safari/537.36";

pub const NETEASE_REFERER: &'static str = "https://music.163.com/";

// ---------------------------------------------------------------------------
// Ranking what the resolvers found
// ---------------------------------------------------------------------------

/// How good a level is; a higher number is better.
pub open spec fn rank_of(level: Seq<char>) -> u8 {
    if level == "jymaster"@ {
        8
    } else if level == "jyeffect"@ || level == "sky"@ {
        7
    } else if level == "hires"@ {
        6
    } else if level == "lossless"@ {
        5
    } else if level == "dolby"@ {
        4
    } else if level == "exhigh"@ {
        3
    } else if level == "standard"@ {
        2
    } else {
        1
    }
}

/// How good a level is; a higher number is better.
pub fn level_rank(level: &str) -> (result: u8)
    ensures
        result == rank_of(level@),
{
    if text::same(level, "jymaster") {
        8
    } else if text::same(level, "jyeffect") || text::same(level, "sky") {
        7
    } else if text::same(level, "hires") {
        6
    } else if text::same(level, "lossless") {
        5
    } else if text::same(level, "dolby") {
        4
    } else if text::same(level, "exhigh") {
        3
    } else if text::same(level, "standard") {
        2
    } else {
        1
    }
}

/// The levels from best to worst; one that is not known is worse than all.
pub proof fn levels_fall_in_rank(level: Seq<char>)
    ensures
        rank_of("jymaster"@) > rank_of("jyeffect"@),
        rank_of("jyeffect"@) == rank_of("sky"@),
        rank_of("sky"@) > rank_of("hires"@),
        rank_of("hires"@) > rank_of("lossless"@),
        rank_of("lossless"@) > rank_of("dolby"@),
        rank_of("dolby"@) > rank_of("exhigh"@),
        rank_of("exhigh"@) > rank_of("standard"@),
        level != "jymaster"@ && level != "jyeffect"@ && level != "sky"@ && level != "hires"@ && level != "lossless"@
            && level != "dolby"@ && level != "exhigh"@ && level != "standard"@ ==> rank_of(level) < rank_of(
            "standard"@,
        ),
{
    lemma_level_names();
}

/// No two of the names of levels are equal.
proof fn lemma_level_names()
    ensures
        "jymaster"@ != "jyeffect"@,
        "jymaster"@ != "sky"@,
        "jymaster"@ != "hires"@,
        "jymaster"@ != "lossless"@,
        "jymaster"@ != "dolby"@,
        "jymaster"@ != "exhigh"@,
        "jymaster"@ != "standard"@,
        "jyeffect"@ != "sky"@,
        "jyeffect"@ != "hires"@,
        "jyeffect"@ != "lossless"@,
        "jyeffect"@ != "dolby"@,
        "jyeffect"@ != "exhigh"@,
        "jyeffect"@ != "standard"@,
        "sky"@ != "hires"@,
        "sky"@ != "lossless"@,
        "sky"@ != "dolby"@,
        "sky"@ != "exhigh"@,
        "sky"@ != "standard"@,
        "hires"@ != "lossless"@,
        "hires"@ != "dolby"@,
        "hires"@ != "exhigh"@,
        "hires"@ != "standard"@,
        "lossless"@ != "dolby"@,
        "lossless"@ != "exhigh"@,
        "lossless"@ != "standard"@,
        "dolby"@ != "exhigh"@,
        "dolby"@ != "standard"@,
        "exhigh"@ != "standard"@,
{
    reveal_strlit("jymaster");
    reveal_strlit("jyeffect");
    reveal_strlit("sky");
    reveal_strlit("hires");
    reveal_strlit("lossless");
    reveal_strlit("dolby");
    reveal_strlit("exhigh");
    reveal_strlit("standard");
    assert("jymaster"@[2] == 'm' && "jyeffect"@[2] == 'e' && "jymaster"@[0] == 'j' && "jyeffect"@[0] == 'j');
    assert("sky"@.len() == 3 && "hires"@[0] == 'h' && "lossless"@[0] == 'l' && "dolby"@[0] == 'd');
    assert("exhigh"@[0] == 'e' && "standard"@[0] == 's' && "standard"@.len() == 8);
}

/// What the resolvers found, without those that found nothing.
pub open spec fn found_ones(found: Seq<Option<(Seq<char>, Seq<char>)>>) -> Seq<(Seq<char>, Seq<char>)>
    decreases found.len(),
{
    if found.len() == 0 {
        Seq::empty()
    } else {
        match found.last() {
            Some(pair) => found_ones(found.drop_last()).push(pair),
            None => found_ones(found.drop_last()),
        }
    }
}

/// The ranks of addresses with their levels.
pub open spec fn ranks(candidates: Seq<(Seq<char>, Seq<char>)>) -> Seq<i64> {
    Seq::new(candidates.len(), |i: int| rank_of(candidates[i].1) as i64)
}

/// What the resolvers found, the best level first; of equal levels the
/// resolver that is listed first.
pub open spec fn best_first(found: Seq<Option<(Seq<char>, Seq<char>)>>) -> Seq<(Seq<char>, Seq<char>)> {
    let candidates = found_ones(found);
    arranged(candidates, sorted_places(ranks(candidates), greater_first(), candidates.len()))
}

/// What the resolvers found, mathematically.
pub open spec fn found_view(found: Seq<Option<(String, String)>>) -> Seq<Option<(Seq<char>, Seq<char>)>> {
    Seq::new(found.len(), |i: int| opt_pair(found[i]))
}

/// Ranks what the resolvers found.
pub fn rank_candidates(found: &Vec<Option<(String, String)>>) -> (result: Vec<(String, String)>)
    ensures
        pairs_view(result@) == best_first(found_view(found@)),
{
    let mut candidates = no_pairs();
    let mut levels: Vec<i64> = Vec::new();
    let mut i: usize = 0;
    let ghost all = found_view(found@);
    assert(all.take(0).len() == 0);
    while i < found.len()
        invariant
            i <= found@.len(),
            all == found_view(found@),
            pairs_view(candidates@) == found_ones(all.take(i as int)),
            levels@ == ranks(found_ones(all.take(i as int))),
        decreases found.len() - i,
    {
        assert(all.take(i + 1).drop_last() =~= all.take(i as int));
        assert(all.take(i + 1).last() == opt_pair(found@[i as int]));
        let ghost before = found_ones(all.take(i as int));
        match &found[i] {
            Some(pair) => {
                add_pair(&mut candidates, pair.0.as_str(), pair.1.as_str());
                levels.push(level_rank(pair.1.as_str()) as i64);
                assert(levels@ =~= ranks(before.push((pair.0@, pair.1@))));
            },
            None => {},
        }
        i += 1;
    }
    assert(all.take(i as int) =~= all);
    let ghost list = found_ones(all);
    assert(pairs_view(candidates@).len() == candidates@.len());
    let places = order::sort_descending(&levels);
    let mut result = no_pairs();
    let mut at: usize = 0;
    while at < places.len()
        invariant
            at <= places@.len(),
            list == pairs_view(candidates@),
            places@.len() == candidates@.len(),
            forall|j: int| 0 <= j < places@.len() ==> (#[trigger] places@[j]) < candidates@.len(),
            pairs_view(result@) == arranged(list, places@).take(at as int),
        decreases places.len() - at,
    {
        let pair = &candidates[places[at]];
        assert(list[places@[at as int] as int] == (pair.0@, pair.1@));
        add_pair(&mut result, pair.0.as_str(), pair.1.as_str());
        at += 1;
        assert(arranged(list, places@).take(at as int) =~= arranged(list, places@).take(at - 1).push(
            arranged(list, places@)[at - 1],
        ));
    }
    assert(arranged(list, places@).take(at as int) =~= arranged(list, places@));
    result
}

/// Of what the resolvers found, a better level never comes behind a worse one,
/// and equal levels keep the order of the resolvers.
pub proof fn best_level_comes_first(found: Seq<Option<(Seq<char>, Seq<char>)>>, i: int, j: int)
    requires
        found.len() <= usize::MAX,
        0 <= i < j < best_first(found).len(),
    ensures
        rank_of(best_first(found)[i].1) >= rank_of(best_first(found)[j].1),
        ({
            let places = sorted_places(ranks(found_ones(found)), greater_first(), found_ones(found).len());
            rank_of(best_first(found)[i].1) == rank_of(best_first(found)[j].1) ==> places[i] < places[j]
        }),
{
    let candidates = found_ones(found);
    lemma_found_ones_len(found);
    order::greater_first_sorts();
    order::sorting_is_stable(ranks(candidates), greater_first());
    let places = sorted_places(ranks(candidates), greater_first(), candidates.len());
    assert(places[i] < candidates.len() && places[j] < candidates.len());
}

proof fn lemma_found_ones_len(found: Seq<Option<(Seq<char>, Seq<char>)>>)
    ensures
        found_ones(found).len() <= found.len(),
    decreases found.len(),
{
    if found.len() > 0 {
        lemma_found_ones_len(found.drop_last());
    }
}

/// What a resolver found is among the candidates, and a resolver that found
/// nothing adds none.
pub proof fn everything_found_is_a_candidate(
    found: Seq<Option<(Seq<char>, Seq<char>)>>,
    pair: (Seq<char>, Seq<char>),
)
    ensures
        found_ones(found.push(Some(pair))) == found_ones(found).push(pair),
        found_ones(found.push(None)) == found_ones(found),
        found_ones(Seq::empty()).len() == 0,
{
    assert(found.push(Some(pair)).drop_last() =~= found);
    assert(found.push(None).drop_last() =~= found);
}

/// Ranking loses nothing and adds nothing: each place of what was found comes
/// exactly once.
pub proof fn ranking_keeps_all(found: Seq<Option<(Seq<char>, Seq<char>)>>)
    requires
        found.len() <= usize::MAX,
    ensures
        best_first(found).len() == found_ones(found).len(),
        order::lists_all(
            sorted_places(ranks(found_ones(found)), greater_first(), found_ones(found).len()),
            found_ones(found).len(),
        ),
{
    lemma_found_ones_len(found);
    order::greater_first_sorts();
    order::sorting_is_stable(ranks(found_ones(found)), greater_first());
}

/// The next candidate, from one on, that has an address to try.
pub open spec fn next_to_try(candidates: Seq<(Seq<char>, Seq<char>)>, from: nat) -> Option<nat>
    decreases candidates.len() - from,
{
    if from >= candidates.len() {
        None
    } else if candidates[from as int].0.len() > 0 {
        Some(from)
    } else {
        next_to_try(candidates, from + 1)
    }
}

/// The next candidate, from one on, that has an address to try.
pub fn next_candidate(candidates: &Vec<(String, String)>, from: usize) -> (result: Option<usize>)
    ensures
        match result {
            Some(at) => next_to_try(pairs_view(candidates@), from as nat) == Some(at as nat) && at < candidates@.len(),
            None => next_to_try(pairs_view(candidates@), from as nat) is None,
        },
{
    let mut at: usize = from;
    while at < candidates.len()
        invariant
            from <= at,
            next_to_try(pairs_view(candidates@), from as nat) == next_to_try(pairs_view(candidates@), at as nat),
        decreases candidates.len() - at,
    {
        assert(pairs_view(candidates@)[at as int].0 == candidates@[at as int].0@);
        if !candidates[at].0.as_str().is_empty() {
            return Some(at);
        }
        at += 1;
    }
    None
}

/// The candidate that is taken, from one on, where `playable` tells which
/// addresses turn out to give audio.
pub open spec fn taken_from(candidates: Seq<(Seq<char>, Seq<char>)>, playable: Seq<bool>, from: nat) -> Option<nat>
    decreases candidates.len() - from,
{
    match next_to_try(candidates, from) {
        Some(at) if from <= at < candidates.len() => if playable[at as int] {
            Some(at)
        } else {
            taken_from(candidates, playable, at + 1)
        },
        _ => None,
    }
}

proof fn lemma_next_to_try(candidates: Seq<(Seq<char>, Seq<char>)>, from: nat)
    ensures
        match next_to_try(candidates, from) {
            Some(at) => from <= at < candidates.len() && candidates[at as int].0.len() > 0 && forall|i: int|
                from <= i < at ==> (#[trigger] candidates[i]).0.len() == 0,
            None => forall|i: int| from <= i < candidates.len() ==> (#[trigger] candidates[i]).0.len() == 0,
        },
    decreases candidates.len() - from,
{
    if from < candidates.len() && candidates[from as int].0.len() == 0 {
        lemma_next_to_try(candidates, from + 1);
    }
}

/// The candidate that is taken is the first that has an address and gives
/// audio: no earlier one has both.
pub proof fn first_playable_is_taken(candidates: Seq<(Seq<char>, Seq<char>)>, playable: Seq<bool>, from: nat)
    ensures
        match taken_from(candidates, playable, from) {
            Some(at) => from <= at < candidates.len() && candidates[at as int].0.len() > 0 && playable[at as int]
                && forall|i: int|
                from <= i < at ==> (#[trigger] candidates[i]).0.len() == 0 || !playable[i],
            None => forall|i: int|
                from <= i < candidates.len() ==> (#[trigger] candidates[i]).0.len() == 0 || !playable[i],
        },
    decreases candidates.len() - from,
{
    lemma_next_to_try(candidates, from);
    match next_to_try(candidates, from) {
        Some(at) => {
            if !playable[at as int] {
                first_playable_is_taken(candidates, playable, at + 1);
            }
        },
        None => {},
    }
}

/// The stream that is taken is the best of those that can be played: none of
/// the candidates that have an address and give audio is of a better level.
pub proof fn best_playable_level_is_taken(
    found: Seq<Option<(Seq<char>, Seq<char>)>>,
    playable: Seq<bool>,
    at: nat,
    other: int,
)
    requires
        found.len() <= usize::MAX,
        taken_from(best_first(found), playable, 0) == Some(at),
        0 <= other < best_first(found).len(),
        best_first(found)[other].0.len() > 0,
        playable[other],
    ensures
        at < best_first(found).len(),
        rank_of(best_first(found)[other].1) <= rank_of(best_first(found)[at as int].1),
{
    first_playable_is_taken(best_first(found), playable, 0);
    if other > at {
        best_level_comes_first(found, at as int, other);
    }
}

/// The request that tries an address. It asks for the first bytes alone.
pub open spec fn probe_request_view(url: Seq<char>) -> RequestView {
    RequestView {
        method: Method::Get,
        url,
        query: seq![],
        headers: seq![
            ("User-Agent"@, NETEASE_UA@),
            ("Referer"@, NETEASE_REFERER@),
            ("Range"@, "bytes=0-8191"@),
        ],
        body: BodyView::Empty,
        timeout: Some(6),
    }
}

/// Only the first bytes of what an address leads to are asked for, for a few
/// seconds, and of that address alone.
pub proof fn addresses_are_tried_briefly(url: Seq<char>)
    ensures
        probe_request_view(url).url == url,
        probe_request_view(url).method == Method::Get,
        probe_request_view(url).query.len() == 0,
        probe_request_view(url).timeout == Some(6u64),
        probe_request_view(url).headers.contains(("Range"@, "bytes=0-8191"@)),
        probe_request_view(url).headers.contains(("Referer"@, "https://music.163.com/"@)),
{
    assert(probe_request_view(url).headers[1] == ("Referer"@, "https://music.163.com/"@));
    assert(probe_request_view(url).headers[2] == ("Range"@, "bytes=0-8191"@));
}

/// The request that tries an address.
pub fn probe_request(url: &str) -> (result: Request)
    ensures
        result@ == probe_request_view(url@),
{
    let mut headers = no_pairs();
    add_pair(&mut headers, "User-Agent", NETEASE_UA);
    add_pair(&mut headers, "Referer", NETEASE_REFERER);
    add_pair(&mut headers, "Range", "bytes=0-8191");
    Request {
        method: Method::Get,
        url: url.to_owned(),
        query: no_pairs(),
        headers,
        body: Body::Empty,
        timeout: Some(6),
    }
}

/// A response is audio where it succeeded and its type says so, says nothing
/// definite, or is missing.
pub open spec fn is_audio_response(status: u16, kind: Option<Seq<char>>) -> bool {
    200 <= status < 300 && match kind {
        Some(kind) => begins(kind, "audio/"@) || contains_text(kind, "application/octet-stream"@) || contains_text(
            kind,
            "binary"@,
        ) || kind.len() == 0,
        None => true,
    }
}

/// A response that failed or is a page is no audio; one that succeeded is, where
/// its type is one of audio or tells nothing. An address is tried with its first
/// bytes alone.
pub proof fn pages_are_no_audio(status: u16, rest: Seq<char>, url: Seq<char>)
    ensures
        is_audio_response(status, None) <==> 200 <= status <= 299,
        is_audio_response(status, Some("audio/"@ + rest)) <==> 200 <= status <= 299,
        is_audio_response(status, Some(Seq::empty())) <==> 200 <= status <= 299,
        is_audio_response(206, Some("application/octet-stream"@)),
        !is_audio_response(status, Some("text/html"@)),
        !is_audio_response(status, Some("application/json"@)),
        probe_request_view(url).url == url,
        probe_request_view(url).headers.contains(("Range"@, "bytes=0-8191"@)),
        probe_request_view(url).timeout == Some(6u64),
{
    text::prefixes_are_taken_off("audio/"@, rest, rest);
    let octets = "application/octet-stream"@;
    text::parts_are_found(Seq::empty(), octets, Seq::empty());
    assert(Seq::<char>::empty() + octets + Seq::<char>::empty() =~= octets);
    lemma_page_type("text/html"@);
    lemma_page_type("application/json"@);
    assert(probe_request_view(url).headers[2] == ("Range"@, "bytes=0-8191"@));
}

proof fn lemma_page_type(kind: Seq<char>)
    requires
        kind == "text/html"@ || kind == "application/json"@,
    ensures
        !begins(kind, "audio/"@),
        !contains_text(kind, "application/octet-stream"@),
        !contains_text(kind, "binary"@),
        kind.len() > 0,
{
    reveal_strlit("text/html");
    reveal_strlit("application/json");
    reveal_strlit("audio/");
    reveal_strlit("application/octet-stream");
    reveal_strlit("binary");
    if begins(kind, "audio/"@) {
        assert(kind.subrange(0, 6)[1] == "audio/"@[1]);
        assert(kind[1] == 'u');
    }
    if contains_text(kind, "binary"@) {
        let at = choose|at: int| occurs_at(kind, "binary"@, at);
        assert(kind.subrange(at, at + 6)[0] == 'b');
        assert(kind[at] == 'b');
    }
}

/// Decides by the status and the headers of a response whether it is audio.
pub fn playable(status: u16, headers: &reqwest::header::HeaderMap) -> (result: bool)
    ensures
        result == is_audio_response(status, headers::content_type(*headers)),
{
    audio_response(status, headers::content_type_of(headers))
}

/// Decides by the status and the type of a response whether it is audio.
pub fn audio_response(status: u16, kind: Option<&str>) -> (result: bool)
    ensures
        result == is_audio_response(status, opt_str(kind)),
{
    if status < 200 || status >= 300 {
        return false;
    }
    match kind {
        Some(kind) => text::starts_with(kind, "audio/") || text::contains(kind, "application/octet-stream")
            || text::contains(kind, "binary") || kind.is_empty(),
        None => true,
    }
}

// ---------------------------------------------------------------------------
// The resolvers
// ---------------------------------------------------------------------------

/// An address that is one of the web.
pub open spec fn web_address(url: Option<Seq<char>>) -> Option<Seq<char>> {
    match url {
        Some(url) if begins(url, "http"@) => Some(url),
        _ => None,
    }
}

/// The address of the web that a reply has at `data.url`.
pub open spec fn data_url(reply: Option<JsonView>) -> Option<Seq<char>> {
    web_address(as_text(child(child(reply, "data"@), "url"@)))
}

/// The address of the web that a reply has at `url`, with the level that it
/// stands for.
pub open spec fn plain_url(reply: Option<JsonView>, level: Seq<char>) -> Option<(Seq<char>, Seq<char>)> {
    match reply {
        Some(reply) => match web_address(as_text(field(reply, "url"@))) {
            Some(url) => Some((url, level)),
            None => None,
        },
        None => None,
    }
}

/// The address of the web that a reply has at `url`, with a level.
fn plain_address(reply: Option<&Json>, level: &str) -> (result: Option<(String, String)>)
    ensures
        opt_pair(result) == plain_url(opt_ref(reply), level@),
{
    match reply {
        Some(reply) => match json::text_at(reply.get("url")) {
            Some(url) => if text::starts_with(url, "http") {
                Some((url.to_owned(), level.to_owned()))
            } else {
                None
            },
            None => None,
        },
        None => None,
    }
}

/// An address counts where it is one of the web.
pub proof fn web_addresses_count(reply: JsonView, inner: JsonView, url: Seq<char>, level: Seq<char>)
    ensures
        field(reply, "url"@) == Some(JsonView::Text(url)) && begins(url, "http"@) ==> plain_url(Some(reply), level)
            == Some((url, level)),
        field(reply, "url"@) == Some(JsonView::Text(url)) && !begins(url, "http"@) ==> plain_url(Some(reply), level)
            is None,
        field(reply, "url"@) is None ==> plain_url(Some(reply), level) is None,
        plain_url(None, level) is None,
        child(Some(reply), "data"@) == Some(inner) && child(Some(inner), "url"@) == Some(JsonView::Text(url)) && begins(
            url,
            "http"@,
        ) ==> data_url(Some(reply)) == Some(url),
        child(Some(reply), "data"@) == Some(inner) && child(Some(inner), "url"@) == Some(JsonView::Text(url)) && !begins(
            url,
            "http"@,
        ) ==> data_url(Some(reply)) is None,
        data_url(None) is None,
{
}

/// The headers of a request to the toubiec resolver.
pub open spec fn toubiec_headers() -> Seq<(Seq<char>, Seq<char>)> {
    seq![
        ("Accept"@, "*/*"@),
        ("Origin"@, "https://wyapi.toubiec.cn"@),
        ("Referer"@, "https://wyapi.toubiec.cn/"@),
        ("User-Agent"@, NETEASE_UA@),
    ]
}

/// A request to the toubiec resolver.
pub open spec fn toubiec_call(api: Seq<char>, body: JsonView) -> RequestView {
    RequestView {
        method: Method::Post,
        url: "https://nextmusic.toubiec.cn/api/"@ + api,
        query: seq![],
        headers: toubiec_headers(),
        body: BodyView::Json(body),
        timeout: Some(8),
    }
}

/// A request to the toubiec resolver.
fn toubiec_post(api: &str, body: Json) -> (result: Request)
    ensures
        result@ == toubiec_call(api@, body@),
{
    let mut headers = no_pairs();
    add_pair(&mut headers, "Accept", "*/*");
    add_pair(&mut headers, "Origin", "https://wyapi.toubiec.cn");
    add_pair(&mut headers, "Referer", "https://wyapi.toubiec.cn/");
    add_pair(&mut headers, "User-Agent", NETEASE_UA);
    Request {
        method: Method::Post,
        url: concat("https://nextmusic.toubiec.cn/api/", api),
        query: no_pairs(),
        headers,
        body: Body::Json(body),
        timeout: Some(8),
    }
}

/// What the request for an `ip` token tells.
pub open spec fn ip_payload(timestamp: u64) -> JsonView {
    JsonView::Record(seq![("timestamp"@, JsonView::Number(Number::Unsigned(timestamp)))])
}

/// The time goes along with the request for a token.
pub proof fn tokens_are_asked_for_with_the_time(timestamp: u64)
    ensures
        field(ip_payload(timestamp), "timestamp"@) == Some(JsonView::Number(Number::Unsigned(timestamp))),
{
    json::field_stands_at(ip_payload(timestamp)->Record_0, "timestamp"@, 0);
}

/// The request for an `ip` token, which the toubiec resolver wants first.
pub fn ip_request(timestamp: u64) -> (result: Request)
    ensures
        result@ == toubiec_call("ip"@, ip_payload(timestamp)),
{
    let mut payload = no_fields();
    put(&mut payload, "timestamp", json::number_value(timestamp));
    assert(fields_view(payload@) =~= ip_payload(timestamp)->Record_0);
    toubiec_post("ip", record(payload))
}

/// The `ip` token in a reply.
pub fn parse_ip(reply: Option<&Json>) -> (result: Option<String>)
    ensures
        opt(result) == ip_in(opt_ref(reply)),
{
    match json::text_at(json::step(json::step(reply, "data"), "ip")) {
        Some(ip) => Some(ip.to_owned()),
        None => None,
    }
}

/// The number of levels that the toubiec resolver is asked for.
pub const TOUBIEC_LEVELS: usize = 8;

/// The levels that the toubiec resolver is asked for, best first.
pub open spec fn toubiec_levels() -> Seq<Seq<char>> {
    seq![
        "jymaster"@,
        "jyeffect"@,
        "sky"@,
        "hires"@,
        "lossless"@,
        "dolby"@,
        "exhigh"@,
        "standard"@,
    ]
}

/// A level that the toubiec resolver is asked for.
pub fn toubiec_level(index: usize) -> (result: &'static str)
    requires
        index < TOUBIEC_LEVELS,
    ensures
        result@ == toubiec_levels()[index as int],
{
    match index {
        0 => "jymaster",
        1 => "jyeffect",
        2 => "sky",
        3 => "hires",
        4 => "lossless",
        5 => "dolby",
        6 => "exhigh",
        _ => "standard",
    }
}

/// What the request for a level tells.
pub open spec fn toubiec_payload(id: u64, level: Seq<char>, timestamp: u64, ip: Seq<char>) -> JsonView {
    JsonView::Record(
        seq![
            ("id"@, JsonView::Text(decimal(id as nat))),
            ("level"@, JsonView::Text(level)),
            ("timestamp"@, JsonView::Number(Number::Unsigned(timestamp))),
            ("ip"@, JsonView::Text(ip)),
        ],
    )
}

/// The interface of the toubiec resolver that is asked: for each level first
/// the one, then the other.
pub open spec fn toubiec_api(second: bool) -> Seq<char> {
    if second {
        "getMusicUrl"@
    } else {
        "getSongUrl"@
    }
}

/// The request for a level.
pub fn toubiec_request(id: u64, index: usize, second: bool, timestamp: u64, ip: &str) -> (result: Request)
    requires
        index < TOUBIEC_LEVELS,
    ensures
        result@ == toubiec_call(
            toubiec_api(second),
            toubiec_payload(id, toubiec_levels()[index as int], timestamp, ip@),
        ),
{
    let level = toubiec_level(index);
    let mut payload = no_fields();
    put(&mut payload, "id", text_value(text::number_text(id).as_str()));
    put(&mut payload, "level", text_value(level));
    put(&mut payload, "timestamp", json::number_value(timestamp));
    put(&mut payload, "ip", text_value(ip));
    assert(fields_view(payload@) =~= toubiec_payload(id, level@, timestamp, ip@)->Record_0);
    if second {
        toubiec_post("getMusicUrl", record(payload))
    } else {
        toubiec_post("getSongUrl", record(payload))
    }
}

/// What the search through levels does next.
#[derive(Debug)]
pub enum LevelAction {
    /// Ask for this level, at the second interface where the flag is set.
    Ask(usize, bool),
    /// Stop, with the address and the level that were found.
    Finish(Option<(String, String)>),
}

/// The mathematical value of a [`LevelAction`].
#[verifier::ext_equal]
pub enum LevelView {
    Ask(usize, bool),
    Finish(Option<(Seq<char>, Seq<char>)>),
}

impl View for LevelAction {
    type V = LevelView;

    open spec fn view(&self) -> LevelView {
        match *self {
            LevelAction::Ask(index, second) => LevelView::Ask(index, second),
            LevelAction::Finish(found) => LevelView::Finish(opt_pair(found)),
        }
    }
}

/// What follows the reply for a level: its address where it has one, else the
/// second interface, then the next level.
pub open spec fn after_toubiec(index: int, second: bool, reply: Option<JsonView>) -> LevelView {
    match data_url(reply) {
        Some(url) => LevelView::Finish(Some((url, toubiec_levels()[index]))),
        None => if !second {
            LevelView::Ask(index as usize, true)
        } else if index + 1 < TOUBIEC_LEVELS {
            LevelView::Ask((index + 1) as usize, false)
        } else {
            LevelView::Finish(None)
        },
    }
}

/// How the search through the levels begins: with the best, where there is a
/// token to ask with.
pub open spec fn toubiec_begin(has_ip: bool) -> LevelView {
    if has_ip {
        LevelView::Ask(0, false)
    } else {
        LevelView::Finish(None)
    }
}

/// The token in a reply.
pub open spec fn ip_in(reply: Option<JsonView>) -> Option<Seq<char>> {
    as_text(child(child(reply, "data"@), "ip"@))
}

/// The search begins with the best level at the first interface, goes on to the
/// second, and from there to the next level; without a token it does not begin.
pub proof fn toubiec_is_asked_level_by_level(index: int, reply: JsonView, data: JsonView, words: Seq<char>)
    requires
        0 <= index < TOUBIEC_LEVELS,
    ensures
        toubiec_begin(true) == LevelView::Ask(0, false),
        toubiec_begin(false) == LevelView::Finish(None),
        after_toubiec(index, false, None) == LevelView::Ask(index as usize, true),
        index < TOUBIEC_LEVELS - 1 ==> after_toubiec(index, true, None) == LevelView::Ask((index + 1) as usize, false),
        index == TOUBIEC_LEVELS - 1 ==> after_toubiec(index, true, None) == LevelView::Finish(None),
        child(Some(reply), "data"@) == Some(data) && child(Some(data), "ip"@) == Some(JsonView::Text(words)) ==> ip_in(
            Some(reply),
        ) == Some(words),
        child(Some(reply), "data"@) == Some(data) && child(Some(data), "url"@) == Some(JsonView::Text(words)) && begins(
            words,
            "http"@,
        ) ==> after_toubiec(index, false, Some(reply)) == LevelView::Finish(Some((words, toubiec_levels()[index])))
            && after_toubiec(index, true, Some(reply)) == LevelView::Finish(Some((words, toubiec_levels()[index]))),
        ip_in(None) is None,
        toubiec_levels()[0] == "jymaster"@,
        toubiec_levels()[3] == "hires"@,
        toubiec_levels()[4] == "lossless"@,
        toubiec_levels()[6] == "exhigh"@,
        toubiec_levels()[7] == "standard"@,
        toubiec_api(false) == "getSongUrl"@,
        toubiec_api(true) == "getMusicUrl"@,
        toubiec_call(words, reply).body == BodyView::Json(reply),
        toubiec_call(words, reply).url == "https://nextmusic.toubiec.cn/api/"@ + words,
        toubiec_call(words, reply).method == Method::Post,
{
}

/// Begins the search through the levels of the toubiec resolver.
pub fn toubiec_start(ip: &Option<String>) -> (result: LevelAction)
    ensures
        result@ == toubiec_begin(*ip is Some),
{
    match ip {
        Some(_) => LevelAction::Ask(0, false),
        None => LevelAction::Finish(None),
    }
}

/// Decides what follows the reply for a level; `None` where there was no reply.
pub fn toubiec_reply(index: usize, second: bool, reply: Option<&Json>) -> (result: LevelAction)
    requires
        index < TOUBIEC_LEVELS,
    ensures
        result@ == after_toubiec(index as int, second, opt_ref(reply)),
{
    match json::text_at(json::step(json::step(reply, "data"), "url")) {
        Some(url) => {
            if text::starts_with(url, "http") {
                return LevelAction::Finish(Some((url.to_owned(), toubiec_level(index).to_owned())));
            }
        },
        None => {},
    }
    if !second {
        LevelAction::Ask(index, true)
    } else if index + 1 < TOUBIEC_LEVELS {
        LevelAction::Ask(index + 1, false)
    } else {
        LevelAction::Finish(None)
    }
}

/// What the search finds from a level and interface on, where `songs` and
/// `musics` are what the two interfaces would reply for each level.
pub open spec fn toubiec_from(
    index: int,
    second: bool,
    songs: Seq<Option<JsonView>>,
    musics: Seq<Option<JsonView>>,
) -> Option<(Seq<char>, Seq<char>)>
    decreases
            2 * (TOUBIEC_LEVELS - index) - (if second {
                1int
            } else {
                0int
            }),
{
    if index < 0 || index >= TOUBIEC_LEVELS {
        None
    } else {
        match after_toubiec(
            index,
            second,
            if second {
                musics[index]
            } else {
                songs[index]
            },
        ) {
            LevelView::Finish(found) => found,
            LevelView::Ask(_, _) => if second {
                toubiec_from(index + 1, false, songs, musics)
            } else {
                toubiec_from(index, true, songs, musics)
            },
        }
    }
}

/// The address that either interface gives for a level, the first preferred.
pub open spec fn level_address(index: int, songs: Seq<Option<JsonView>>, musics: Seq<Option<JsonView>>) -> Option<
    Seq<char>,
> {
    match data_url(songs[index]) {
        Some(url) => Some(url),
        None => data_url(musics[index]),
    }
}

proof fn lemma_toubiec_from(index: int, songs: Seq<Option<JsonView>>, musics: Seq<Option<JsonView>>, winner: int)
    requires
        0 <= index <= winner <= TOUBIEC_LEVELS,
        forall|i: int| index <= i < winner ==> (#[trigger] level_address(i, songs, musics)) is None,
        winner < TOUBIEC_LEVELS ==> level_address(winner, songs, musics) is Some,
    ensures
        toubiec_from(index, false, songs, musics) == (if winner < TOUBIEC_LEVELS {
            Some((level_address(winner, songs, musics)->0, toubiec_levels()[winner]))
        } else {
            None
        }),
    decreases winner - index,
{
    reveal_with_fuel(toubiec_from, 3);
    if index < winner {
        assert(level_address(index, songs, musics) is None);
        lemma_toubiec_from(index + 1, songs, musics, winner);
    }
}

/// The toubiec resolver gives the best level for which either of its
/// interfaces has an address, and nothing only where no level has one.
pub proof fn best_toubiec_level_wins(songs: Seq<Option<JsonView>>, musics: Seq<Option<JsonView>>, winner: int)
    requires
        0 <= winner <= TOUBIEC_LEVELS,
        forall|i: int| 0 <= i < winner ==> (#[trigger] level_address(i, songs, musics)) is None,
        winner < TOUBIEC_LEVELS ==> level_address(winner, songs, musics) is Some,
    ensures
        toubiec_from(0, false, songs, musics) == (if winner < TOUBIEC_LEVELS {
            Some((level_address(winner, songs, musics)->0, toubiec_levels()[winner]))
        } else {
            None
        }),
{
    lemma_toubiec_from(0, songs, musics, winner);
}

/// The toubiec resolver is asked for its levels from best to worst, and a level
/// is asked for by its name and by the number of the song.
pub proof fn toubiec_levels_fall(i: int, j: int, id: u64, timestamp: u64, ip: Seq<char>)
    requires
        0 <= i < j < TOUBIEC_LEVELS,
    ensures
        rank_of(toubiec_levels()[i]) >= rank_of(toubiec_levels()[j]),
        toubiec_levels()[i] != toubiec_levels()[j],
        rank_of(toubiec_levels()[j]) > 1,
        field(toubiec_payload(id, toubiec_levels()[i], timestamp, ip), "level"@) == Some(
            JsonView::Text(toubiec_levels()[i]),
        ),
        field(toubiec_payload(id, toubiec_levels()[i], timestamp, ip), "id"@) == Some(
            JsonView::Text(decimal(id as nat)),
        ),
        field(toubiec_payload(id, toubiec_levels()[i], timestamp, ip), "ip"@) == Some(JsonView::Text(ip)),
{
    lemma_level_names();
    let fields = toubiec_payload(id, toubiec_levels()[i], timestamp, ip)->Record_0;
    reveal_strlit("id");
    reveal_strlit("level");
    reveal_strlit("timestamp");
    reveal_strlit("ip");
    assert("id"@[1] == 'd' && "ip"@[1] == 'p' && "level"@.len() == 5 && "timestamp"@.len() == 9);
    json::field_stands_at(fields, "id"@, 0);
    json::field_stands_at(fields, "level"@, 1);
    json::field_stands_at(fields, "ip"@, 3);
}

/// A request to a resolver that wants nothing but a query.
pub open spec fn simple_get(url: Seq<char>, query: Seq<(Seq<char>, Seq<char>)>) -> RequestView {
    RequestView {
        method: Method::Get,
        url,
        query,
        headers: seq![("User-Agent"@, NETEASE_UA@)],
        body: BodyView::Empty,
        timeout: Some(8),
    }
}

/// A request to a resolver that wants nothing but a query.
fn get_with(url: &str, query: Vec<(String, String)>) -> (result: Request)
    ensures
        result@ == simple_get(url@, pairs_view(query@)),
{
    let mut headers = no_pairs();
    add_pair(&mut headers, "User-Agent", NETEASE_UA);
    Request {
        method: Method::Get,
        url: url.to_owned(),
        query,
        headers,
        body: Body::Empty,
        timeout: Some(8),
    }
}

/// What the gdstudio resolver found: lossless streams.
pub open spec fn gdstudio_found(reply: Option<JsonView>) -> Option<(Seq<char>, Seq<char>)> {
    plain_url(reply, "lossless"@)
}

/// What the cocodownloader resolver found: lossless streams.
pub open spec fn cocodownloader_found(reply: Option<JsonView>) -> Option<(Seq<char>, Seq<char>)> {
    plain_url(reply, "lossless"@)
}

/// What the ffapi resolver found: plain streams.
pub open spec fn ffapi_found(reply: Option<JsonView>) -> Option<(Seq<char>, Seq<char>)> {
    plain_url(reply, "standard"@)
}

/// The requests to the resolvers that want nothing but a query.
pub open spec fn gdstudio_request_view(id: u64) -> RequestView {
    simple_get(
        "https://music-api.gdstudio.xyz/api.php"@,
        seq![("types"@, "url"@), ("id"@, decimal(id as nat)), ("source"@, "netease"@), ("br"@, "999"@)],
    )
}

pub open spec fn cocodownloader_request_view(id: u64) -> RequestView {
    simple_get(
        "https://cocodownloader.markqq.com/api/url"@,
        seq![("id"@, decimal(id as nat)), ("provider"@, "netease"@), ("quality"@, "lossless"@)],
    )
}

pub open spec fn ffapi_request_view(id: u64) -> RequestView {
    simple_get("https://ffapi.cn/int/v1/netease_url"@, seq![("id"@, decimal(id as nat))])
}

pub open spec fn haitangw_request_view(id: u64, index: int) -> RequestView {
    simple_get(
        "https://musicapi.haitangw.net/music/wy.php"@,
        seq![("id"@, decimal(id as nat)), ("level"@, haitangw_levels()[index]), ("type"@, "json"@)],
    )
}

/// The resolvers that promise lossless streams are trusted to give them, the
/// plain one is not; every resolver is asked for the song that is wanted, and an
/// address counts only where it is one of the web.
pub proof fn resolvers_have_their_levels(reply: JsonView, url: Seq<char>, id: u64, index: int)
    requires
        0 <= index < HAITANGW_LEVELS,
    ensures
        field(reply, "url"@) == Some(JsonView::Text(url)) && begins(url, "http"@) ==> gdstudio_found(Some(reply)) == Some(
            (url, "lossless"@),
        ) && cocodownloader_found(Some(reply)) == Some((url, "lossless"@)) && ffapi_found(Some(reply)) == Some(
            (url, "standard"@),
        ),
        field(reply, "url"@) is None || !begins(text_at_url(reply), "http"@) ==> gdstudio_found(Some(reply)) is None
            && cocodownloader_found(Some(reply)) is None && ffapi_found(Some(reply)) is None,
        gdstudio_found(None) is None && cocodownloader_found(None) is None && ffapi_found(None) is None,
        gdstudio_request_view(id).query.contains(("id"@, decimal(id as nat))),
        gdstudio_request_view(id).query.contains(("source"@, "netease"@)),
        gdstudio_request_view(id).query.contains(("br"@, "999"@)),
        cocodownloader_request_view(id).query.contains(("id"@, decimal(id as nat))),
        cocodownloader_request_view(id).query.contains(("quality"@, "lossless"@)),
        cocodownloader_request_view(id).query.contains(("provider"@, "netease"@)),
        ffapi_request_view(id).query.contains(("id"@, decimal(id as nat))),
        haitangw_request_view(id, index).query.contains(("id"@, decimal(id as nat))),
        haitangw_request_view(id, index).query.contains(("level"@, haitangw_levels()[index])),
        gdstudio_request_view(id).timeout == Some(8u64),
        gdstudio_request_view(id).method == Method::Get,
        gdstudio_request_view(id).headers.contains(("User-Agent"@, NETEASE_UA@)),
{
    reveal_strlit("http");
    assert(gdstudio_request_view(id).query[1] == ("id"@, decimal(id as nat)));
    assert(gdstudio_request_view(id).query[2] == ("source"@, "netease"@));
    assert(gdstudio_request_view(id).query[3] == ("br"@, "999"@));
    assert(cocodownloader_request_view(id).query[0] == ("id"@, decimal(id as nat)));
    assert(cocodownloader_request_view(id).query[1] == ("provider"@, "netease"@));
    assert(cocodownloader_request_view(id).query[2] == ("quality"@, "lossless"@));
    assert(ffapi_request_view(id).query[0] == ("id"@, decimal(id as nat)));
    assert(haitangw_request_view(id, index).query[0] == ("id"@, decimal(id as nat)));
    assert(haitangw_request_view(id, index).query[1] == ("level"@, haitangw_levels()[index]));
    assert(gdstudio_request_view(id).headers[0] == ("User-Agent"@, NETEASE_UA@));
}

/// The text that a reply has at `url`, or the empty text.
pub open spec fn text_at_url(reply: JsonView) -> Seq<char> {
    json::text_or_empty(field(reply, "url"@))
}

/// The request to the gdstudio resolver.
pub fn gdstudio_request(id: u64) -> (result: Request)
    ensures
        result@ == gdstudio_request_view(id),
{
    let mut query = no_pairs();
    add_pair(&mut query, "types", "url");
    add_pair(&mut query, "id", text::number_text(id).as_str());
    add_pair(&mut query, "source", "netease");
    add_pair(&mut query, "br", "999");
    get_with("https://music-api.gdstudio.xyz/api.php", query)
}

/// What the gdstudio resolver found: lossless streams.
pub fn gdstudio_url(reply: Option<&Json>) -> (result: Option<(String, String)>)
    ensures
        opt_pair(result) == gdstudio_found(opt_ref(reply)),
{
    plain_address(reply, "lossless")
}

/// The request to the cocodownloader resolver.
pub fn cocodownloader_request(id: u64) -> (result: Request)
    ensures
        result@ == cocodownloader_request_view(id),
{
    let mut query = no_pairs();
    add_pair(&mut query, "id", text::number_text(id).as_str());
    add_pair(&mut query, "provider", "netease");
    add_pair(&mut query, "quality", "lossless");
    get_with("https://cocodownloader.markqq.com/api/url", query)
}

/// What the cocodownloader resolver found: lossless streams.
pub fn cocodownloader_url(reply: Option<&Json>) -> (result: Option<(String, String)>)
    ensures
        opt_pair(result) == cocodownloader_found(opt_ref(reply)),
{
    plain_address(reply, "lossless")
}

/// The request to the ffapi resolver.
pub fn ffapi_request(id: u64) -> (result: Request)
    ensures
        result@ == ffapi_request_view(id),
{
    let mut query = no_pairs();
    add_pair(&mut query, "id", text::number_text(id).as_str());
    get_with("https://ffapi.cn/int/v1/netease_url", query)
}

/// What the ffapi resolver found: plain streams.
pub fn ffapi_url(reply: Option<&Json>) -> (result: Option<(String, String)>)
    ensures
        opt_pair(result) == ffapi_found(opt_ref(reply)),
{
    plain_address(reply, "standard")
}

/// The number of levels that the haitangw resolver is asked for.
pub const HAITANGW_LEVELS: usize = 4;

/// The levels that the haitangw resolver is asked for, in turn.
pub open spec fn haitangw_levels() -> Seq<Seq<char>> {
    seq!["lossless"@, "hires"@, "exhigh"@, "standard"@]
}

/// A level that the haitangw resolver is asked for.
pub fn haitangw_level(index: usize) -> (result: &'static str)
    requires
        index < HAITANGW_LEVELS,
    ensures
        result@ == haitangw_levels()[index as int],
{
    match index {
        0 => "lossless",
        1 => "hires",
        2 => "exhigh",
        _ => "standard",
    }
}

/// The request for a level to the haitangw resolver.
pub fn haitangw_request(id: u64, index: usize) -> (result: Request)
    requires
        index < HAITANGW_LEVELS,
    ensures
        result@ == haitangw_request_view(id, index as int),
{
    let mut query = no_pairs();
    add_pair(&mut query, "id", text::number_text(id).as_str());
    add_pair(&mut query, "level", haitangw_level(index));
    add_pair(&mut query, "type", "json");
    get_with("https://musicapi.haitangw.net/music/wy.php", query)
}

/// What follows the reply for a level of the haitangw resolver. A reply that
/// is missing or has no address at all ends the search; an address that is
/// none of the web leads on to the next level.
pub open spec fn after_haitangw(index: int, reply: Option<JsonView>) -> LevelView {
    match as_text(child(child(reply, "data"@), "url"@)) {
        Some(url) => if begins(url, "http"@) {
            LevelView::Finish(Some((url, haitangw_levels()[index])))
        } else if index + 1 < HAITANGW_LEVELS {
            LevelView::Ask((index + 1) as usize, false)
        } else {
            LevelView::Finish(None)
        },
        None => LevelView::Finish(None),
    }
}

/// Decides what follows the reply for a level of the haitangw resolver.
pub fn haitangw_reply(index: usize, reply: Option<&Json>) -> (result: LevelAction)
    requires
        index < HAITANGW_LEVELS,
    ensures
        result@ == after_haitangw(index as int, opt_ref(reply)),
{
    match json::text_at(json::step(json::step(reply, "data"), "url")) {
        Some(url) => if text::starts_with(url, "http") {
            LevelAction::Finish(Some((url.to_owned(), haitangw_level(index).to_owned())))
        } else if index + 1 < HAITANGW_LEVELS {
            LevelAction::Ask(index + 1, false)
        } else {
            LevelAction::Finish(None)
        },
        None => LevelAction::Finish(None),
    }
}

/// What the haitangw resolver gives from a level on, where `replies` are what
/// it would reply for each level.
pub open spec fn haitangw_from(index: int, replies: Seq<Option<JsonView>>) -> Option<(Seq<char>, Seq<char>)>
    decreases HAITANGW_LEVELS - index,
{
    if index < 0 || index >= HAITANGW_LEVELS {
        None
    } else {
        match after_haitangw(index, replies[index]) {
            LevelView::Finish(found) => found,
            LevelView::Ask(_, _) => haitangw_from(index + 1, replies),
        }
    }
}

/// The haitangw resolver takes the first level that has an address of the web,
/// lossless before all others.
pub proof fn haitangw_prefers_lossless(replies: Seq<Option<JsonView>>)
    ensures
        data_url(replies[0]) matches Some(url) ==> haitangw_from(0, replies) == Some((url, "lossless"@)),
        data_url(replies[0]) is None && as_text(child(child(replies[0], "data"@), "url"@)) is Some ==> (data_url(
            replies[1],
        ) matches Some(url) ==> haitangw_from(0, replies) == Some((url, "hires"@))),
        as_text(child(child(replies[0], "data"@), "url"@)) is None ==> haitangw_from(0, replies) is None,
        haitangw_levels()[2] == "exhigh"@,
        haitangw_levels()[3] == "standard"@,
{
    reveal_with_fuel(haitangw_from, 3);
}

/// What the haitangw resolver gives is an address of the web, of the level at
/// which it was found, and every level before that one had an address of
/// another kind.
pub proof fn haitangw_gives_web_addresses(index: int, replies: Seq<Option<JsonView>>)
    requires
        0 <= index <= HAITANGW_LEVELS,
    ensures
        haitangw_from(index, replies) matches Some((url, level)) ==> begins(url, "http"@) && exists|k: int|
            index <= k < HAITANGW_LEVELS && #[trigger] data_url(replies[k]) == Some(url) && level
                == haitangw_levels()[k] && forall|i: int|
                index <= i < k ==> (#[trigger] data_url(replies[i])) is None && as_text(
                    child(child(replies[i], "data"@), "url"@),
                ) is Some,
    decreases HAITANGW_LEVELS - index,
{
    if index < HAITANGW_LEVELS {
        match after_haitangw(index, replies[index]) {
            LevelView::Finish(found) => {
                match found {
                    Some((url, level)) => {
                        assert(data_url(replies[index]) == Some(url));
                    },
                    None => {},
                }
            },
            LevelView::Ask(_, _) => {
                haitangw_gives_web_addresses(index + 1, replies);
                match haitangw_from(index + 1, replies) {
                    Some((url, level)) => {
                        let k = choose|k: int|
                            index + 1 <= k < HAITANGW_LEVELS && #[trigger] data_url(replies[k]) == Some(url) && level
                                == haitangw_levels()[k] && forall|i: int|
                                index + 1 <= i < k ==> (#[trigger] data_url(replies[i])) is None && as_text(
                                    child(child(replies[i], "data"@), "url"@),
                                ) is Some;
                        assert(data_url(replies[k]) == Some(url));
                        assert(data_url(replies[index]) is None);
                    },
                    None => {},
                }
            },
        }
    }
}

// ---------------------------------------------------------------------------
// Search cards
// ---------------------------------------------------------------------------

/// What a listener may be given of a song.
#[derive(Debug, Clone)]
pub struct NeteasePrivilege {
    pub max_br_level: Option<String>,
}

/// A performer of a song.
#[derive(Debug)]
pub struct NeteaseArtist {
    pub name: String,
}

/// The album of a song.
#[derive(Debug)]
pub struct NeteaseAlbum {
    pub name: String,
    pub pic_url: Option<String>,
}

/// A song as a search card describes it; `sq`, `h`, `m` and `l` are its files,
/// from lossless to low.
#[derive(Debug)]
pub struct NeteaseSong {
    pub id: u64,
    pub name: String,
    pub artists: Vec<NeteaseArtist>,
    pub album: Option<NeteaseAlbum>,
    pub duration: Option<u64>,
    pub privilege: Option<NeteasePrivilege>,
    pub sq: Option<Json>,
    pub h: Option<Json>,
    pub m: Option<Json>,
    pub l: Option<Json>,
}

/// The best level that a card promises.
pub open spec fn promised_level(song: NeteaseSong) -> Option<Seq<char>> {
    match song.privilege {
        Some(privilege) => opt(privilege.max_br_level),
        None => None,
    }
}

/// The label and the format of a promised level, in any case of its letters;
/// none for the levels below `exhigh`.
pub open spec fn level_card(level: Seq<char>) -> Option<(Seq<char>, Seq<char>)> {
    let level = lowered(level);
    if contains_text(level, "dolby"@) {
        Some(("杜比全景声"@, "FLAC"@))
    } else if contains_text(level, "jymaster"@) {
        Some(("臻品母带"@, "FLAC"@))
    } else if contains_text(level, "jyeffect"@) || contains_text(level, "sky"@) {
        Some(("臻品音效"@, "FLAC"@))
    } else if contains_text(level, "lossless"@) || contains_text(level, "hires"@) {
        Some(("无损"@, "FLAC"@))
    } else if contains_text(level, "exhigh"@) {
        Some(("320K"@, "MP3"@))
    } else {
        None
    }
}

/// The label and the format of the best file of a card.
pub open spec fn file_card(song: NeteaseSong) -> (Option<Seq<char>>, Option<Seq<char>>) {
    if song.sq is Some {
        (Some("无损"@), Some("FLAC"@))
    } else if song.h is Some {
        (Some("320K"@), Some("MP3"@))
    } else if song.m is Some {
        (Some("192K"@), Some("MP3"@))
    } else if song.l is Some {
        (Some("128K"@), Some("MP3"@))
    } else {
        (None, None)
    }
}

/// The label and the format of a card: those of the level it promises, or else
/// those of its best file.
pub open spec fn card_quality(song: NeteaseSong) -> (Option<Seq<char>>, Option<Seq<char>>) {
    match promised_level(song) {
        Some(level) => match level_card(level) {
            Some((quality, format)) => (Some(quality), Some(format)),
            None => file_card(song),
        },
        None => file_card(song),
    }
}

fn labelled(quality: &str, format: &str) -> (result: (Option<String>, Option<String>))
    ensures
        opt(result.0) == Some(quality@),
        opt(result.1) == Some(format@),
{
    (Some(quality.to_owned()), Some(format.to_owned()))
}

/// The label and the format that a search card shows.
pub fn netease_quality(song: &NeteaseSong) -> (result: (Option<String>, Option<String>))
    ensures
        (opt(result.0), opt(result.1)) == card_quality(*song),
{
    if let Some(privilege) = &song.privilege {
        if let Some(level) = &privilege.max_br_level {
            let level = text::lower(level.as_str());
            if text::contains(level.as_str(), "dolby") {
                return labelled("杜比全景声", "FLAC");
            }
            if text::contains(level.as_str(), "jymaster") {
                return labelled("臻品母带", "FLAC");
            }
            if text::contains(level.as_str(), "jyeffect") || text::contains(level.as_str(), "sky") {
                return labelled("臻品音效", "FLAC");
            }
            if text::contains(level.as_str(), "lossless") || text::contains(level.as_str(), "hires") {
                return labelled("无损", "FLAC");
            }
            if text::contains(level.as_str(), "exhigh") {
                return labelled("320K", "MP3");
            }
        }
    }
    if song.sq.is_some() {
        labelled("无损", "FLAC")
    } else if song.h.is_some() {
        labelled("320K", "MP3")
    } else if song.m.is_some() {
        labelled("192K", "MP3")
    } else if song.l.is_some() {
        labelled("128K", "MP3")
    } else {
        (None, None)
    }
}

/// An address without its plain-text scheme: `http` becomes `https`.
pub open spec fn secured(url: Seq<char>) -> Seq<char> {
    match without_prefix(url, "http://"@) {
        Some(rest) => "https://"@ + rest,
        None => url,
    }
}

/// The track of a search card.
pub open spec fn track_of_song(song: NeteaseSong) -> TrackView {
    TrackView {
        id: "netease:"@ + decimal(song.id as nat),
        source: "NeteaseMusicClient"@,
        title: song.name@,
        artist: joined(Seq::new(song.artists@.len(), |i: int| song.artists@[i].name@), " / "@),
        album: match song.album {
            Some(album) => album.name@,
            None => Seq::empty(),
        },
        artwork_url: match song.album {
            Some(album) => match opt(album.pic_url) {
                Some(url) => secured(url),
                None => Seq::empty(),
            },
            None => Seq::empty(),
        },
        audio_url: Seq::empty(),
        duration_ms: match song.duration {
            Some(duration) => duration,
            None => 0,
        },
        format: card_quality(song).1,
        quality: card_quality(song).0,
        adapter_payload: None,
    }
}

/// The track of a search card.
pub fn track_from_song(song: NeteaseSong) -> (result: Track)
    ensures
        result@ == track_of_song(song),
{
    track_of(&song)
}

fn track_of(song: &NeteaseSong) -> (result: Track)
    ensures
        result@ == track_of_song(*song),
{
    let mut names: Vec<String> = Vec::new();
    let mut i: usize = 0;
    while i < song.artists.len()
        invariant
            i <= song.artists@.len(),
            names@.len() == i,
            forall|j: int| 0 <= j < i ==> (#[trigger] names@[j])@ == song.artists@[j].name@,
        decreases song.artists.len() - i,
    {
        names.push(song.artists[i].name.clone());
        i += 1;
    }
    assert(texts(names@) =~= Seq::new(song.artists@.len(), |i: int| song.artists@[i].name@));
    let (quality, format) = netease_quality(song);
    let mut album_name = String::new();
    let mut artwork_url = String::new();
    if let Some(album) = &song.album {
        album_name = album.name.clone();
        if let Some(url) = &album.pic_url {
            artwork_url = match text::strip_prefix(url.as_str(), "http://") {
                Some(rest) => concat("https://", rest),
                None => url.clone(),
            };
        }
    }
    Track {
        id: concat("netease:", text::number_text(song.id).as_str()),
        source: "NeteaseMusicClient".to_owned(),
        title: song.name.clone(),
        artist: text::join(&names, " / "),
        album: album_name,
        artwork_url,
        audio_url: String::new(),
        duration_ms: match song.duration {
            Some(duration) => duration,
            None => 0,
        },
        format,
        quality,
        adapter_payload: None,
    }
}

/// A card becomes the track of its song: title, album and length are the song's,
/// the identifier leads back to it, and it is a track of NetEase that has no
/// address yet.
pub proof fn cards_become_their_songs(song: NeteaseSong)
    ensures
        track_of_song(song).title == song.name@,
        song.album matches Some(album) ==> track_of_song(song).album == album.name@,
        song.album is None ==> track_of_song(song).album.len() == 0 && track_of_song(song).artwork_url.len() == 0,
        song.duration matches Some(duration) ==> track_of_song(song).duration_ms == duration,
        song.duration is None ==> track_of_song(song).duration_ms == 0,
        track_of_song(song).audio_url.len() == 0,
        track_of_song(song).source == sources::source_id(sources::Source::Netease),
        lookup_of(track_of_song(song)) == NeteaseLookupView::Song(song.id),
        song.artists@.len() == 1 ==> track_of_song(song).artist == song.artists@[0].name@,
        song.artists@.len() == 2 ==> track_of_song(song).artist == song.artists@[0].name@ + " / "@
            + song.artists@[1].name@,
        song.artists@.len() == 0 ==> track_of_song(song).artist.len() == 0,
{
    text::prefixes_are_taken_off("netease:"@, decimal(song.id as nat), Seq::empty());
    text::decimal_reads_back(song.id);
    let names = Seq::new(song.artists@.len(), |i: int| song.artists@[i].name@);
    reveal_with_fuel(joined, 3);
    if names.len() == 2 {
        assert(names.drop_last() =~= seq![names[0]]);
        assert(joined(names.drop_last(), " / "@) == names[0]);
    }
}

/// The picture of an album is fetched by a secure address: a plain one becomes
/// the secure one of the same place, any other stays as it is.
pub proof fn pictures_are_fetched_securely(song: NeteaseSong, rest: Seq<char>)
    ensures
        song.album matches Some(album) ==> (opt(album.pic_url) == Some("http://"@ + rest) ==> track_of_song(
            song,
        ).artwork_url == "https://"@ + rest) && (opt(album.pic_url) == Some("https://"@ + rest) ==> track_of_song(
            song,
        ).artwork_url == "https://"@ + rest) && (album.pic_url is None ==> track_of_song(song).artwork_url.len() == 0),
{
    text::prefixes_are_taken_off("http://"@, rest, "https://"@ + rest);
    reveal_strlit("http://");
    reveal_strlit("https://");
    let secure = "https://"@ + rest;
    assert(!begins(secure, "http://"@)) by {
        assert(secure.subrange(0, 7)[4] == 's');
        assert("http://"@[4] == ':');
    }
}

/// The quality on a card: the level that it promises counts before its files,
/// and of its files the best.
pub proof fn cards_show_their_best_file(song: NeteaseSong)
    ensures
        promised_level(song) is None && song.sq is Some ==> card_quality(song) == (Some("无损"@), Some("FLAC"@)),
        promised_level(song) is None && song.sq is None && song.h is Some ==> card_quality(song) == (
            Some("320K"@),
            Some("MP3"@),
        ),
        promised_level(song) is None && song.sq is None && song.h is None && song.m is Some ==> card_quality(song) == (
            Some("192K"@),
            Some("MP3"@),
        ),
        promised_level(song) is None && song.sq is None && song.h is None && song.m is None && song.l is Some
            ==> card_quality(song) == (Some("128K"@), Some("MP3"@)),
        promised_level(song) is None && song.sq is None && song.h is None && song.m is None && song.l is None
            ==> card_quality(song).0 is None && card_quality(song).1 is None,
        promised_level(song) matches Some(level) ==> promise_is_shown(level, card_quality(song), file_card(song)),
        track_of_song(song).quality == card_quality(song).0,
        track_of_song(song).format == card_quality(song).1,
{
}

/// What is shown of a card that promises a level, where `files` is what its files
/// alone would show.
pub open spec fn promise_is_shown(
    level: Seq<char>,
    shown: (Option<Seq<char>>, Option<Seq<char>>),
    files: (Option<Seq<char>>, Option<Seq<char>>),
) -> bool {
    let dolby = contains_text(lowered(level), "dolby"@);
    let master = contains_text(lowered(level), "jymaster"@);
    let effect = contains_text(lowered(level), "jyeffect"@) || contains_text(lowered(level), "sky"@);
    let lossless = contains_text(lowered(level), "lossless"@) || contains_text(lowered(level), "hires"@);
    let high = contains_text(lowered(level), "exhigh"@);
    &&& dolby || master || effect || lossless ==> shown.1 == Some("FLAC"@)
    &&& dolby ==> shown.0 == Some("杜比全景声"@)
    &&& !dolby && master ==> shown.0 == Some("臻品母带"@)
    &&& !dolby && !master && effect ==> shown.0 == Some("臻品音效"@)
    &&& !dolby && !master && !effect && lossless ==> shown.0 == Some("无损"@)
    &&& !dolby && !master && !effect && !lossless && high ==> shown == (Some("320K"@), Some("MP3"@))
    &&& !dolby && !master && !effect && !lossless && !high ==> shown == files
}

/// The tracks of search cards.
pub open spec fn tracks_of_songs(songs: Seq<NeteaseSong>) -> Seq<TrackView> {
    Seq::new(songs.len(), |i: int| track_of_song(songs[i]))
}

/// The tracks of search cards; none where the reply has no songs.
pub fn tracks_from_songs(songs: Option<Vec<NeteaseSong>>) -> (result: Vec<Track>)
    ensures
        tracks_view(result@) == (match songs {
            Some(songs) => tracks_of_songs(songs@),
            None => Seq::empty(),
        }),
{
    let mut tracks: Vec<Track> = Vec::new();
    match songs {
        Some(songs) => {
            let mut i: usize = 0;
            while i < songs.len()
                invariant
                    i <= songs@.len(),
                    tracks@.len() == i,
                    forall|j: int| 0 <= j < i ==> (#[trigger] tracks@[j])@ == track_of_song(songs@[j]),
                decreases songs.len() - i,
            {
                tracks.push(track_of(&songs[i]));
                i += 1;
            }
            assert(tracks_view(tracks@) =~= tracks_of_songs(songs@));
        },
        None => {
            assert(tracks_view(tracks@) =~= Seq::<TrackView>::empty());
        },
    }
    tracks
}

/// How many songs come before a page; the greatest number where that does not
/// fit.
pub open spec fn page_offset(limit: nat, page: u32) -> nat {
    let before = if page == 0 {
        0
    } else {
        (page - 1) as nat
    };
    if before * limit <= usize::MAX {
        before * limit
    } else {
        usize::MAX as nat
    }
}

/// The search for a query.
pub open spec fn search_request_view(query: Seq<char>, limit: nat, page: u32) -> RequestView {
    RequestView {
        method: Method::Post,
        url: "https://music.163.com/api/cloudsearch/pc"@,
        query: seq![],
        headers: seq![("Referer"@, NETEASE_REFERER@)],
        body: BodyView::Form(
            seq![
                ("s"@, query),
                ("type"@, "1"@),
                ("offset"@, decimal(page_offset(limit, page))),
                ("total"@, "true"@),
                ("limit"@, decimal(limit)),
            ],
        ),
        timeout: None,
    }
}

/// A search asks for what the user typed, for so many songs, and for those
/// behind the pages that come before.
pub proof fn searches_ask_for_the_query(query: Seq<char>, limit: nat, page: u32)
    requires
        page > 0,
        (page - 1) * limit <= usize::MAX,
    ensures
        search_request_view(query, limit, page).body matches BodyView::Form(pairs) && pairs.contains(("s"@, query))
            && pairs.contains(("limit"@, decimal(limit))) && pairs.contains(
            ("offset"@, decimal(((page - 1) * limit) as nat)),
        ) && pairs.contains(("type"@, "1"@)),
        search_request_view(query, limit, 0) == search_request_view(query, limit, 1),
        search_request_view(query, limit, page).method == Method::Post,
{
    let pairs = search_request_view(query, limit, page).body->Form_0;
    assert(pairs[0] == ("s"@, query));
    assert(pairs[1] == ("type"@, "1"@));
    assert(pairs[2] == ("offset"@, decimal(page_offset(limit, page))));
    assert(pairs[4] == ("limit"@, decimal(limit)));
}

/// The search for a query.
pub fn search_request(query: &str, limit: usize, page: u32) -> (result: Request)
    ensures
        result@ == search_request_view(query@, limit as nat, page),
{
    let before: usize = if page == 0 {
        0
    } else {
        (page - 1) as usize
    };
    let offset: usize = match before.checked_mul(limit) {
        Some(offset) => offset,
        None => usize::MAX,
    };
    let mut form = no_pairs();
    add_pair(&mut form, "s", query);
    add_pair(&mut form, "type", "1");
    add_pair(&mut form, "offset", text::number_text(offset as u64).as_str());
    add_pair(&mut form, "total", "true");
    add_pair(&mut form, "limit", text::number_text(limit as u64).as_str());
    let mut headers = no_pairs();
    add_pair(&mut headers, "Referer", NETEASE_REFERER);
    Request {
        method: Method::Post,
        url: "https://music.163.com/api/cloudsearch/pc".to_owned(),
        query: no_pairs(),
        headers,
        body: Body::Form(form),
        timeout: None,
    }
}

// ---------------------------------------------------------------------------
// Resolving a track
// ---------------------------------------------------------------------------

/// What has to be done to make a track of NetEase playable.
#[derive(Debug)]
pub enum NeteaseLookup {
    /// Nothing: the track has the address of its stream.
    Ready,
    /// Look up the stream of the song with this number.
    Song(u64),
    /// Nothing can be done, for this reason.
    Refused(String),
}

/// The mathematical value of a [`NeteaseLookup`].
#[verifier::ext_equal]
pub enum NeteaseLookupView {
    Ready,
    Song(u64),
    Refused(Seq<char>),
}

impl View for NeteaseLookup {
    type V = NeteaseLookupView;

    open spec fn view(&self) -> NeteaseLookupView {
        match *self {
            NeteaseLookup::Ready => NeteaseLookupView::Ready,
            NeteaseLookup::Song(id) => NeteaseLookupView::Song(id),
            NeteaseLookup::Refused(message) => NeteaseLookupView::Refused(message@),
        }
    }
}

/// What has to be done for a track.
pub open spec fn lookup_of(track: TrackView) -> NeteaseLookupView {
    if !is_blank(track.audio_url) {
        NeteaseLookupView::Ready
    } else {
        match without_prefix(track.id, "netease:"@) {
            Some(song) => match number_of(song) {
                Some(id) => NeteaseLookupView::Song(id),
                None => NeteaseLookupView::Refused("网易云音乐歌曲标识无效"@),
            },
            None => NeteaseLookupView::Refused("歌曲标识不属于网易云音乐"@),
        }
    }
}

/// Decides what has to be done to make a track of NetEase playable.
pub fn resolve_start(track: &Track) -> (result: NeteaseLookup)
    ensures
        result@ == lookup_of(track@),
{
    if !text::blank(track.audio_url.as_str()) {
        return NeteaseLookup::Ready;
    }
    match text::strip_prefix(track.id.as_str(), "netease:") {
        Some(song) => match text::parse_number(song) {
            Some(id) => NeteaseLookup::Song(id),
            None => NeteaseLookup::Refused("网易云音乐歌曲标识无效".to_owned()),
        },
        None => NeteaseLookup::Refused("歌曲标识不属于网易云音乐".to_owned()),
    }
}

/// The label of a level.
pub open spec fn level_label(level: Seq<char>) -> Seq<char> {
    if level == "jymaster"@ {
        "臻品母带"@
    } else if level == "jyeffect"@ {
        "臻品音效"@
    } else if level == "sky"@ {
        "沉浸环绕声"@
    } else if level == "lossless"@ || level == "hires"@ {
        "无损"@
    } else if level == "dolby"@ {
        "杜比全景声"@
    } else if level == "exhigh"@ {
        "320K"@
    } else if level == "standard"@ {
        "128K"@
    } else {
        level
    }
}

/// What is shown for a level that was found.
pub proof fn levels_have_their_labels(level: Seq<char>)
    ensures
        level_label("jymaster"@) == "臻品母带"@,
        level_label("jyeffect"@) == "臻品音效"@,
        level_label("sky"@) == "沉浸环绕声"@,
        level_label("hires"@) == "无损"@,
        level_label("lossless"@) == "无损"@,
        level_label("dolby"@) == "杜比全景声"@,
        level_label("exhigh"@) == "320K"@,
        level_label("standard"@) == "128K"@,
        rank_of(level) == 1 ==> level_label(level) == level,
{
    lemma_level_names();
}

/// A track is looked up by the number behind the prefix of its identifier; where
/// that is no number, or the prefix is another's, it is refused.
pub proof fn songs_are_looked_up_by_their_number(track: TrackView, id: u64, song: Seq<char>)
    ensures
        is_blank(track.audio_url) && track.id == "netease:"@ + decimal(id as nat) ==> lookup_of(track)
            == NeteaseLookupView::Song(id),
        !is_blank(track.audio_url) ==> lookup_of(track) == NeteaseLookupView::Ready,
        is_blank(track.audio_url) && !begins(track.id, "netease:"@) ==> lookup_of(track) is Refused,
        is_blank(track.audio_url) && track.id == "netease:"@ + song && number_of(song) is None ==> lookup_of(track)
            is Refused,
{
    text::prefixes_are_taken_off("netease:"@, decimal(id as nat), track.id);
    text::prefixes_are_taken_off("netease:"@, song, track.id);
    text::decimal_reads_back(id);
}

/// The label of a level.
pub fn label_of(level: &str) -> (result: String)
    ensures
        result@ == level_label(level@),
{
    if text::same(level, "jymaster") {
        "臻品母带".to_owned()
    } else if text::same(level, "jyeffect") {
        "臻品音效".to_owned()
    } else if text::same(level, "sky") {
        "沉浸环绕声".to_owned()
    } else if text::same(level, "lossless") || text::same(level, "hires") {
        "无损".to_owned()
    } else if text::same(level, "dolby") {
        "杜比全景声".to_owned()
    } else if text::same(level, "exhigh") {
        "320K".to_owned()
    } else if text::same(level, "standard") {
        "128K".to_owned()
    } else {
        level.to_owned()
    }
}

/// The headers to fetch a stream of NetEase with.
pub open spec fn netease_headers() -> JsonView {
    JsonView::Record(
        seq![("Referer"@, JsonView::Text(NETEASE_REFERER@)), ("User-Agent"@, JsonView::Text(NETEASE_UA@))],
    )
}

/// What is kept with a track whose stream has an extension.
pub open spec fn netease_payload(extension: Seq<char>) -> JsonView {
    JsonView::Record(seq![("extension"@, JsonView::Text(extension)), ("downloadHeaders"@, netease_headers())])
}

/// A track with the stream that was found for it, or the message that none
/// was.
pub open spec fn with_stream(track: TrackView, url: Seq<char>, level: Seq<char>) -> Result<TrackView, Seq<char>> {
    if url.len() == 0 {
        Err(
            "网易云音乐未能解析出可播放的音频地址（该歌曲可能为付费/版权曲目，或当前音解析服务暂时不可用）"@,
        )
    } else {
        let extension = in_capitals(short_extension(url, "mp3"@));
        Ok(
            TrackView {
                audio_url: url,
                format: Some(extension),
                quality: Some(level_label(level)),
                adapter_payload: Some(netease_payload(lowered(extension))),
                ..track
            },
        )
    }
}

/// The stream of a resolved track is fetched with the headers of its source.
pub proof fn source_headers_are_sent(track: TrackView, url: Seq<char>, level: Seq<char>)
    ensures
        with_stream(track, url, level) matches Ok(resolved) ==> stream_headers_of(resolved) == seq![
            ("Referer"@, NETEASE_REFERER@),
            ("User-Agent"@, NETEASE_UA@),
        ],
{
    match with_stream(track, url, level) {
        Ok(resolved) => {
            let extension = lowered(in_capitals(short_extension(url, "mp3"@)));
            let fields = netease_payload(extension)->Record_0;
            assert(fields =~= Seq::empty().push(("extension"@, JsonView::Text(extension))).push(
                ("downloadHeaders"@, netease_headers()),
            ));
            json::last_value_counts(
                Seq::empty().push(("extension"@, JsonView::Text(extension))),
                "downloadHeaders"@,
                netease_headers(),
            );
            kept_headers_are_sent(
                resolved,
                netease_payload(extension),
                ("Referer"@, NETEASE_REFERER@),
                ("User-Agent"@, NETEASE_UA@),
            );
        },
        Err(_) => {},
    }
}

/// Resolving a track fills in what was found and keeps the rest; a track is
/// refused only where no stream was found.
pub proof fn resolved_tracks_have_their_stream(track: TrackView, url: Seq<char>, level: Seq<char>)
    ensures
        with_stream(track, url, level) is Ok <==> url.len() > 0,
        with_stream(track, url, level) matches Ok(resolved) ==> resolved.audio_url == url && resolved.quality == Some(
            level_label(level),
        ) && resolved.id == track.id && resolved.source == track.source && resolved.title == track.title
            && resolved.artist == track.artist && resolved.album == track.album && resolved.artwork_url
            == track.artwork_url && resolved.duration_ms == track.duration_ms,
        with_stream(track, url, level) matches Ok(resolved) ==> (resolved.format matches Some(format)
            && resolved.adapter_payload matches Some(payload) && field(payload, "extension"@) == Some(
            JsonView::Text(lowered(format)),
        )),
{
    if url.len() > 0 {
        let extension = lowered(in_capitals(short_extension(url, "mp3"@)));
        let fields = netease_payload(extension)->Record_0;
        reveal_strlit("extension");
        reveal_strlit("downloadHeaders");
        assert("extension"@.len() != "downloadHeaders"@.len());
        json::field_stands_at(fields, "extension"@, 0);
    }
}

/// Fills in the stream that was found for a track; an empty address stands for
/// none.
pub fn resolve_track(track: &Track, audio_url: String, level: &str) -> (result: Result<Track, String>)
    ensures
        track_result(result) == with_stream(track@, audio_url@, level@),
{
    if audio_url.as_str().is_empty() {
        return Err(
            "网易云音乐未能解析出可播放的音频地址（该歌曲可能为付费/版权曲目，或当前音解析服务暂时不可用）".to_owned(),
        );
    }
    let extension = text::to_upper(sources::extension_or(audio_url.as_str(), "mp3"));
    let small = text::lower(extension.as_str());
    let mut headers = no_fields();
    put(&mut headers, "Referer", text_value(NETEASE_REFERER));
    put(&mut headers, "User-Agent", text_value(NETEASE_UA));
    assert(fields_view(headers@) =~= netease_headers()->Record_0);
    let mut payload = no_fields();
    put(&mut payload, "extension", text_value(small.as_str()));
    put(&mut payload, "downloadHeaders", record(headers));
    assert(fields_view(payload@) =~= netease_payload(small@)->Record_0);
    let mut resolved = track.clone();
    resolved.audio_url = audio_url;
    resolved.format = Some(extension);
    resolved.adapter_payload = Some(record(payload));
    resolved.quality = Some(label_of(level));
    Ok(resolved)
}

/// The number of the song of NetEase that a track is.
pub open spec fn song_number(track: TrackView) -> Option<u64> {
    match without_prefix(track.id, "netease:"@) {
        Some(song) => number_of(song),
        None => None,
    }
}

/// The label and the format that playback will resolve to, by what was found.
pub open spec fn announced(url: Seq<char>, level: Seq<char>) -> Option<(Seq<char>, Seq<char>)> {
    if url.len() == 0 {
        None
    } else {
        Some((level_label(level), in_capitals(short_extension(url, "mp3"@))))
    }
}

/// What is announced for a stream is what its track shows once it is resolved,
/// and nothing is announced where it cannot be resolved; the song is the one on
/// the card.
pub proof fn announcements_come_true(track: TrackView, url: Seq<char>, level: Seq<char>, song: NeteaseSong)
    ensures
        with_stream(track, url, level) matches Ok(resolved) ==> (announced(url, level) matches Some((quality, format))
            && resolved.quality == Some(quality) && resolved.format == Some(format)),
        with_stream(track, url, level) is Err ==> announced(url, level) is None,
        song_number(track_of_song(song)) == Some(song.id),
        song_of(track_of_song(song), "netease:"@, "歌曲标识不属于网易云音乐"@) == Ok::<Seq<char>, Seq<char>>(
            decimal(song.id as nat),
        ),
        !begins(track.id, "netease:"@) ==> song_number(track) is None,
{
    text::prefixes_are_taken_off("netease:"@, decimal(song.id as nat), track.id);
    text::decimal_reads_back(song.id);
}

/// The number of the song of NetEase that a track is.
pub fn quality_start(track: &Track) -> (result: Option<u64>)
    ensures
        result == song_number(track@),
{
    match text::strip_prefix(track.id.as_str(), "netease:") {
        Some(song) => text::parse_number(song),
        None => None,
    }
}

/// The label and the format that playback will resolve to, by what was found.
pub fn resolve_quality(url: &str, level: &str) -> (result: Option<(String, String)>)
    ensures
        opt_pair(result) == announced(url@, level@),
{
    if url.is_empty() {
        None
    } else {
        Some((label_of(level), text::to_upper(sources::extension_or(url, "mp3"))))
    }
}

/// A resolved track shows the label and the format that were announced for it.
pub proof fn announced_quality_is_kept(track: TrackView, url: Seq<char>, level: Seq<char>)
    requires
        url.len() > 0,
    ensures
        with_stream(track, url, level) is Ok,
        with_stream(track, url, level)->Ok_0.quality == Some(level_label(level)),
        with_stream(track, url, level)->Ok_0.format == Some(in_capitals(short_extension(url, "mp3"@))),
{
}

// ---------------------------------------------------------------------------
// Lyrics
// ---------------------------------------------------------------------------

/// The song whose lyrics belong to a track.
pub fn lyrics_start(track: &Track) -> (result: Result<String, String>)
    ensures
        sources::result_view(result) == song_of(track@, "netease:"@, "歌曲标识不属于网易云音乐"@),
{
    sources::song_id(track, "netease:", "歌曲标识不属于网易云音乐")
}

/// The request for the lyrics of a song.
pub open spec fn lyrics_request_view(song_id: Seq<char>) -> RequestView {
    RequestView {
        method: Method::Get,
        url: "https://music.163.com/api/song/lyric"@,
        query: seq![("id"@, song_id), ("lv"@, "-1"@), ("kv"@, "-1"@), ("tv"@, "-1"@)],
        headers: seq![("Referer"@, NETEASE_REFERER@)],
        body: BodyView::Empty,
        timeout: None,
    }
}

/// The lyrics are asked for by the number of the song.
pub proof fn lyrics_are_asked_for_by_number(song_id: Seq<char>)
    ensures
        lyrics_request_view(song_id).query.contains(("id"@, song_id)),
        lyrics_request_view(song_id).query.contains(("lv"@, "-1"@)),
        lyrics_request_view(song_id).headers.contains(("Referer"@, "https://music.163.com/"@)),
        lyrics_request_view(song_id).url == "https://music.163.com/api/song/lyric"@,
{
    assert(lyrics_request_view(song_id).query[0] == ("id"@, song_id));
    assert(lyrics_request_view(song_id).query[1] == ("lv"@, "-1"@));
    assert(lyrics_request_view(song_id).headers[0] == ("Referer"@, "https://music.163.com/"@));
}

/// The request for the lyrics of a song.
pub fn lyrics_request(song_id: &str) -> (result: Request)
    ensures
        result@ == lyrics_request_view(song_id@),
{
    let mut query = no_pairs();
    add_pair(&mut query, "id", song_id);
    add_pair(&mut query, "lv", "-1");
    add_pair(&mut query, "kv", "-1");
    add_pair(&mut query, "tv", "-1");
    let mut headers = no_pairs();
    add_pair(&mut headers, "Referer", NETEASE_REFERER);
    Request {
        method: Method::Get,
        url: "https://music.163.com/api/song/lyric".to_owned(),
        query,
        headers,
        body: Body::Empty,
        timeout: None,
    }
}

/// The lyrics of a reply, unless they are missing or blank.
pub fn lyrics_text(lyric: Option<String>) -> (result: Option<String>)
    ensures
        opt(result) == sources::unless_blank(opt(lyric)),
{
    sources::keep_words(lyric)
}

} // verus!
