//! Migu Music.
use crate::domain::{quality_from_url, quality_in_url, Track, TrackView};
use crate::download::download_extension;
use crate::headers;
use crate::json::{self, as_list, as_text, child, either, field, fields_view, json_document, list_view, no_fields, opt_ref, put, record, text_or_empty, text_value, Json, JsonView, Number};
use crate::order::{self, arranged, greater_first, sorted_places};
use crate::playback::{kept_headers_are_sent, stream_headers_of};
use crate::request::{add_pair, no_pairs, Body, BodyView, Method, Request, RequestView};
use crate::sources;
use crate::text::{self, concat, decimal, in_capitals, joined, lowered, opt, opt_str, stripped_end, texts, trimmed};
use vstd::prelude::*;
use vstd::string::*;

verus! {

pub const MIGU_UA: &'static str = "Mozilla/5.0 (Windows NT 10.0; Win64; x64) AppleWebKit/537.36 (KHTML, like Gecko) Chrome/148.0.0.0 Safari/537.36";

// ---------------------------------------------------------------------------
// Masked replies
// ---------------------------------------------------------------------------

/// The key that replies are masked with.
pub open spec fn migu_key() -> Seq<u8> {
    seq![0x4au8, 0x6b, 0x38, 0x71, 0x7a, 0x75, 0x65, 0x50, 0x69, 0x4a, 0x31, 0x71, 0x45, 0x33, 0x6d, 0x44, 0x59, 0x68, 0x4c, 0x51, 0x33, 0x54, 0x37, 0x33, 0x44, 0x74, 0x44, 0x6f, 0x41, 0x68, 0x4c, 0x50]
}

/// A reply is masked where a header says so, or where it begins with the mark
/// of a masked reply.
pub open spec fn is_masked(signed: bool, raw: Seq<u8>) -> bool {
    signed || (raw.len() >= 3 && raw[0] == 0xab && raw[1] == 0xcd && raw[2] == 0x01)
}

/// What a byte of a masked reply stands for.
pub open spec fn unmasked_byte(byte: u8, seed: u8, key: u8) -> u8 {
    ((byte + seed - key) % 256) as u8
}

/// What a masked reply stands for: its fourth byte is the seed, and each byte
/// behind it is shifted by the seed and by a byte of the key.
pub open spec fn unmasked(raw: Seq<u8>) -> Seq<u8> {
    Seq::new((raw.len() - 4) as nat, |i: int| unmasked_byte(raw[i + 4], raw[3], migu_key()[i % 32]))
}

/// The bytes of a document in a reply, or the message that there are none.
pub open spec fn plain_reply(signed: bool, raw: Seq<u8>) -> Result<Seq<u8>, Seq<char>> {
    if is_masked(signed, raw) {
        if raw.len() < 4 {
            Err("咪咕响应过短"@)
        } else {
            Ok(unmasked(raw))
        }
    } else {
        Ok(raw)
    }
}

/// A byte as it comes in a masked reply.
pub open spec fn masked_byte(byte: u8, seed: u8, key: u8) -> u8 {
    ((byte + key - seed) % 256) as u8
}

/// A masked reply, with its mark.
pub open spec fn masked(plain: Seq<u8>, seed: u8) -> Seq<u8> {
    seq![0xabu8, 0xcd, 0x01, seed] + Seq::new(
        plain.len(),
        |i: int| masked_byte(plain[i], seed, migu_key()[i % 32]),
    )
}

/// A masked reply is known by its mark and stands for what was masked, whatever
/// the seed.
pub proof fn masking_reads_back(plain: Seq<u8>, seed: u8, signed: bool)
    ensures
        plain_reply(signed, masked(plain, seed)) == Ok::<Seq<u8>, Seq<char>>(plain),
{
    let raw = masked(plain, seed);
    assert(raw.len() == plain.len() + 4);
    assert(raw[0] == 0xab && raw[1] == 0xcd && raw[2] == 0x01 && raw[3] == seed);
    assert forall|i: int| 0 <= i < plain.len() implies #[trigger] unmasked(raw)[i] == plain[i] by {
        assert(raw[i + 4] == masked_byte(plain[i], seed, migu_key()[i % 32]));
    }
    assert(unmasked(raw) =~= plain);
}

/// A reply that is not masked is taken as it is, and one that is masked but too
/// short is refused.
pub proof fn plain_replies_stay(raw: Seq<u8>)
    ensures
        raw.len() < 3 || raw[0] != 0xab || raw[1] != 0xcd || raw[2] != 1 ==> plain_reply(false, raw) == Ok::<
            Seq<u8>,
            Seq<char>,
        >(raw),
        raw.len() < 4 ==> plain_reply(true, raw) == Err::<Seq<u8>, Seq<char>>("咪咕响应过短"@),
        raw.len() >= 4 ==> (plain_reply(true, raw) matches Ok(plain) && plain.len() == raw.len() - 4),
{
}

/// A byte of the document and the byte of the key in its place make up what came
/// in the reply and the seed, which is the fourth byte of the reply.
pub proof fn masks_are_shifts(raw: Seq<u8>, i: int)
    requires
        0 <= i < raw.len() - 4,
    ensures
        plain_reply(true, raw) matches Ok(plain) && (plain[i] + migu_key()[i % 32]) % 256 == (raw[i + 4] + raw[3]) % 256,
{
    let byte = raw[i + 4];
    let seed = raw[3];
    let key = migu_key()[i % 32];
    let shifted = byte + seed - key;
    assert(unmasked(raw)[i] == unmasked_byte(byte, seed, key));
    assert(unmasked_byte(byte, seed, key) == shifted % 256);
    assert((shifted % 256 + key) % 256 == (byte + seed) % 256);
}

/// The bytes of a document in a reply.
pub fn plain_bytes(signed: bool, raw: &[u8]) -> (result: Result<Vec<u8>, String>)
    ensures
        match result {
            Ok(bytes) => plain_reply(signed, raw@) == Ok::<Seq<u8>, Seq<char>>(bytes@),
            Err(message) => plain_reply(signed, raw@) == Err::<Seq<u8>, Seq<char>>(message@),
        },
{
    let size: usize = raw.len();
    let mut plain: Vec<u8> = Vec::new();
    if signed || (size >= 3 && raw[0] == 0xab && raw[1] == 0xcd && raw[2] == 0x01) {
        if size < 4 {
            return Err("咪咕响应过短".to_owned());
        }
        let key: [u8; 32] = [0x4a, 0x6b, 0x38, 0x71, 0x7a, 0x75, 0x65, 0x50, 0x69, 0x4a, 0x31, 0x71, 0x45, 0x33, 0x6d, 0x44, 0x59, 0x68, 0x4c, 0x51, 0x33, 0x54, 0x37, 0x33, 0x44, 0x74, 0x44, 0x6f, 0x41, 0x68, 0x4c, 0x50];
        assert(key@ =~= migu_key());
        let seed: u8 = raw[3];
        let mut i: usize = 0;
        while i < size - 4
            invariant
                i <= size - 4,
                size == raw@.len(),
                size >= 4,
                seed == raw@[3],
                key@ == migu_key(),
                plain@ == unmasked(raw@).take(i as int),
            decreases size - 4 - i,
        {
            let byte: u8 = raw[i + 4].wrapping_add(seed).wrapping_sub(key[i % 32]);
            assert(byte == unmasked_byte(raw@[i + 4], seed, migu_key()[i as int % 32]));
            plain.push(byte);
            assert(unmasked(raw@).take(i + 1) =~= unmasked(raw@).take(i as int).push(byte));
            i += 1;
        }
        assert(unmasked(raw@).take(i as int) =~= unmasked(raw@));
    } else {
        let mut i: usize = 0;
        while i < size
            invariant
                i <= size,
                size == raw@.len(),
                plain@ == raw@.take(i as int),
            decreases size - i,
        {
            plain.push(raw[i]);
            assert(raw@.take(i + 1) =~= raw@.take(i as int).push(raw@[i as int]));
            i += 1;
        }
        assert(raw@.take(i as int) =~= raw@);
    }
    Ok(plain)
}

/// The document in a reply, or the message why there is none.
pub open spec fn reply_document(signature: Option<Seq<char>>, raw: Seq<u8>) -> Result<JsonView, Seq<char>> {
    match plain_reply(signature == Some("1"@), raw) {
        Ok(plain) => match json_document(plain) {
            Ok(document) => Ok(document),
            Err(error) => Err("咪咕数据解析失败: "@ + error),
        },
        Err(message) => Err(message),
    }
}

/// The signature `1` marks a masked reply and any other signature does not; what
/// a reply stands for is read, and where it does not parse, the error is told.
pub proof fn documents_are_read_or_told(signature: Option<Seq<char>>, raw: Seq<u8>, error: Seq<char>)
    requires
        raw.len() < 3 || raw[0] != 0xab || raw[1] != 0xcd || raw[2] != 1,
    ensures
        signature != Some("1"@) ==> (json_document(raw) matches Ok(document) ==> reply_document(signature, raw) == Ok::<
            JsonView,
            Seq<char>,
        >(document)),
        signature != Some("1"@) && json_document(raw) == Err::<JsonView, Seq<char>>(error) ==> reply_document(
            signature,
            raw,
        ) == Err::<JsonView, Seq<char>>("咪咕数据解析失败: "@ + error),
        signature == Some("1"@) && raw.len() < 4 ==> reply_document(signature, raw) == Err::<JsonView, Seq<char>>(
            "咪咕响应过短"@,
        ),
        signature == Some("1"@) && raw.len() >= 4 ==> (json_document(unmasked(raw)) matches Ok(document)
            ==> reply_document(signature, raw) == Ok::<JsonView, Seq<char>>(document)),
{
}

/// Reads the document in a reply from its headers and its bytes.
pub fn decode_response(headers: &reqwest::header::HeaderMap, raw: &[u8]) -> (result: Result<Json, String>)
    ensures
        (match result {
            Ok(document) => Ok::<JsonView, Seq<char>>(document@),
            Err(message) => Err::<JsonView, Seq<char>>(message@),
        }) == reply_document(headers::header_of(*headers, "signature"@), raw@),
{
    decode_signed(headers::header_at(headers, "signature"), raw)
}

/// Reads the document in a reply from its `signature` header and its bytes.
pub fn decode_signed(signature: Option<&str>, raw: &[u8]) -> (result: Result<Json, String>)
    ensures
        (match result {
            Ok(document) => Ok::<JsonView, Seq<char>>(document@),
            Err(message) => Err::<JsonView, Seq<char>>(message@),
        }) == reply_document(opt_str(signature), raw@),
{
    let signed = match signature {
        Some(value) => text::same(value, "1"),
        None => false,
    };
    match plain_bytes(signed, raw) {
        Ok(plain) => match json::parse_json(plain.as_slice()) {
            Ok(document) => Ok(document),
            Err(error) => Err(concat("咪咕数据解析失败: ", error.as_str())),
        },
        Err(message) => Err(message),
    }
}

// ---------------------------------------------------------------------------
// Search
// ---------------------------------------------------------------------------

/// The headers that every request of the application carries.
pub open spec fn migu_headers() -> Seq<(Seq<char>, Seq<char>)> {
    seq![
        ("User-Agent"@, MIGU_UA@),
        ("Accept"@, "application/json, text/plain, */*"@),
        ("Origin"@, "https://h5.nf.migu.cn"@),
        ("Referer"@, "https://h5.nf.migu.cn/"@),
        ("ua"@, "Android_migu"@),
        ("version"@, "6.8.8"@),
        ("channel"@, "014021I"@),
        ("subchannel"@, "014021I"@),
    ]
}

fn common_headers() -> (result: Vec<(String, String)>)
    ensures
        crate::request::pairs_view(result@) == migu_headers(),
{
    let mut headers = no_pairs();
    add_pair(&mut headers, "User-Agent", MIGU_UA);
    add_pair(&mut headers, "Accept", "application/json, text/plain, */*");
    add_pair(&mut headers, "Origin", "https://h5.nf.migu.cn");
    add_pair(&mut headers, "Referer", "https://h5.nf.migu.cn/");
    add_pair(&mut headers, "ua", "Android_migu");
    add_pair(&mut headers, "version", "6.8.8");
    add_pair(&mut headers, "channel", "014021I");
    add_pair(&mut headers, "subchannel", "014021I");
    headers
}

/// The search for a query.
pub open spec fn search_request_view(query: Seq<char>, limit: nat, page: u32) -> RequestView {
    RequestView {
        method: Method::Get,
        url: "https://c.musicapp.migu.cn/v1.0/content/search_all.do"@,
        query: seq![
            ("text"@, query),
            ("pageNo"@, decimal(page as nat)),
            ("pageSize"@, decimal(limit)),
            ("isCopyright"@, "1"@),
            ("sort"@, "1"@),
            ("searchSwitch"@, "{\"song\":1,\"album\":0,\"singer\":0,\"tagSong\":1,\"mvSong\":0,\"bestShow\":1}"@),
        ],
        headers: migu_headers(),
        body: BodyView::Empty,
        timeout: None,
    }
}

/// The search for a query.
pub fn search_request(query: &str, limit: usize, page: u32) -> (result: Request)
    ensures
        result@ == search_request_view(query@, limit as nat, page),
{
    let mut pairs = no_pairs();
    add_pair(&mut pairs, "text", query);
    add_pair(&mut pairs, "pageNo", text::number_text(page as u64).as_str());
    add_pair(&mut pairs, "pageSize", text::number_text(limit as u64).as_str());
    add_pair(&mut pairs, "isCopyright", "1");
    add_pair(&mut pairs, "sort", "1");
    add_pair(
        &mut pairs,
        "searchSwitch",
        "{\"song\":1,\"album\":0,\"singer\":0,\"tagSong\":1,\"mvSong\":0,\"bestShow\":1}",
    );
    Request {
        method: Method::Get,
        url: "https://c.musicapp.migu.cn/v1.0/content/search_all.do".to_owned(),
        query: pairs,
        headers: common_headers(),
        body: Body::Empty,
        timeout: None,
    }
}

/// The songs of a search reply.
pub open spec fn songs_in(document: JsonView) -> Seq<JsonView> {
    match as_list(child(child(Some(document), "songResultData"@), "result"@)) {
        Some(songs) => songs,
        None => Seq::empty(),
    }
}

/// The songs of a search reply, at most `limit` of them.
pub open spec fn first_songs(document: JsonView, limit: nat) -> Seq<JsonView> {
    if songs_in(document).len() <= limit {
        songs_in(document)
    } else {
        songs_in(document).take(limit as int)
    }
}

/// The songs that come first are shown, and as many as there is room for.
pub proof fn searches_keep_to_the_limit(document: JsonView, limit: nat, i: int)
    ensures
        first_songs(document, limit).len() <= limit,
        songs_in(document).len() <= limit ==> first_songs(document, limit) == songs_in(document),
        songs_in(document).len() >= limit ==> first_songs(document, limit).len() == limit,
        0 <= i < first_songs(document, limit).len() ==> first_songs(document, limit)[i] == songs_in(document)[i],
{
}

/// The songs of a search reply, at most `limit` of them.
pub fn search_songs(document: &Json, limit: usize) -> (result: Vec<Json>)
    ensures
        list_view(result@) == first_songs(document@, limit as nat),
{
    let mut songs = json::list_or_default(json::step(json::step(Some(document), "songResultData"), "result"));
    let ghost all = list_view(songs@);
    assert(all =~= songs_in(document@));
    if songs.len() > limit {
        songs.truncate(limit);
        assert(list_view(songs@) =~= all.take(limit as int));
    }
    songs
}

/// A search asks for what the user typed, for so many songs and for the page
/// that is wanted.
pub proof fn searches_ask_for_the_query(query: Seq<char>, limit: nat, page: u32)
    ensures
        search_request_view(query, limit, page).query.contains(("text"@, query)),
        search_request_view(query, limit, page).query.contains(("pageNo"@, decimal(page as nat))),
        search_request_view(query, limit, page).query.contains(("pageSize"@, decimal(limit))),
        search_request_view(query, limit, page).method == Method::Get,
{
    let pairs = search_request_view(query, limit, page).query;
    assert(pairs[0] == ("text"@, query));
    assert(pairs[1] == ("pageNo"@, decimal(page as nat)));
    assert(pairs[2] == ("pageSize"@, decimal(limit)));
}

/// The songs of a reply are those of its list, all of them and in their order.
pub proof fn replies_give_their_songs(document: JsonView, inner: JsonView, songs: Seq<JsonView>)
    ensures
        child(Some(document), "songResultData"@) == Some(inner) && child(Some(inner), "result"@) == Some(
            JsonView::List(songs),
        ) ==> songs_in(document) == songs,
        child(Some(document), "songResultData"@) is None ==> songs_in(document).len() == 0,
{
}

// ---------------------------------------------------------------------------
// Candidates for a stream
// ---------------------------------------------------------------------------

/// A list in a song; empty where there is none.
pub open spec fn formats_at(song: JsonView, name: Seq<char>) -> Seq<JsonView> {
    match as_list(field(song, name)) {
        Some(formats) => formats,
        None => Seq::empty(),
    }
}

/// The formats that are not spatial audio, in their order.
pub open spec fn playable_formats(formats: Seq<JsonView>) -> Seq<JsonView>
    decreases formats.len(),
{
    if formats.len() == 0 {
        Seq::empty()
    } else if as_text(field(formats.last(), "formatType"@)) == Some("Z3D"@) {
        playable_formats(formats.drop_last())
    } else {
        playable_formats(formats.drop_last()).push(formats.last())
    }
}

/// The formats of a song that may be asked for. There are none to choose from
/// where the song has no copyright identifier or no list of rates.
pub open spec fn formats_of(song: JsonView) -> Option<Seq<JsonView>> {
    if as_text(field(song, "copyrightId"@)) is Some && as_list(field(song, "rateFormats"@)) is Some {
        Some(
            playable_formats(
                formats_at(song, "rateFormats"@) + formats_at(song, "newRateFormats"@) + formats_at(
                    song,
                    "audioFormats"@,
                ),
            ),
        )
    } else {
        None
    }
}

proof fn lemma_playable_join(left: Seq<JsonView>, right: Seq<JsonView>)
    ensures
        playable_formats(left + right) == playable_formats(left) + playable_formats(right),
    decreases right.len(),
{
    if right.len() == 0 {
        assert(left + right =~= left);
        assert(playable_formats(left) + playable_formats(right) =~= playable_formats(left));
    } else {
        lemma_playable_join(left, right.drop_last());
        assert((left + right).drop_last() =~= left + right.drop_last());
        assert((left + right).last() == right.last());
        let before = playable_formats(left) + playable_formats(right.drop_last());
        assert(before.push(right.last()) =~= playable_formats(left) + playable_formats(right.drop_last()).push(
            right.last(),
        ));
    }
}

/// Every format of a song may be asked for but spatial audio, in the order in
/// which they are listed.
pub proof fn all_but_spatial_audio_is_asked_for(formats: Seq<JsonView>, format: JsonView)
    ensures
        field(format, "formatType"@) == Some(JsonView::Text("Z3D"@)) ==> playable_formats(formats.push(format))
            == playable_formats(formats),
        field(format, "formatType"@) != Some(JsonView::Text("Z3D"@)) ==> playable_formats(formats.push(format))
            == playable_formats(formats).push(format),
        playable_formats(Seq::empty()).len() == 0,
{
    assert(formats.push(format).drop_last() =~= formats);
}

/// The formats of a song are those of its three lists, one list behind the
/// other; a song without an identifier of its copyright or without rates has
/// none.
pub proof fn formats_come_from_three_lists(
    song: JsonView,
    rates: Seq<JsonView>,
    newer: Seq<JsonView>,
    audio: Seq<JsonView>,
)
    ensures
        as_text(field(song, "copyrightId"@)) is Some && field(song, "rateFormats"@) == Some(JsonView::List(rates))
            && field(song, "newRateFormats"@) == Some(JsonView::List(newer)) && field(song, "audioFormats"@) == Some(
            JsonView::List(audio),
        ) ==> formats_of(song) == Some(playable_formats(rates) + playable_formats(newer) + playable_formats(audio)),
        as_text(field(song, "copyrightId"@)) is None ==> formats_of(song) is None,
        field(song, "rateFormats"@) is None ==> formats_of(song) is None,
{
    lemma_playable_join(rates + newer, audio);
    lemma_playable_join(rates, newer);
}

/// Appends the formats of a list that may be asked for.
fn add_formats(formats: &mut Vec<Json>, song: &Json, name: &str)
    ensures
        list_view(final(formats)@) == list_view(old(formats)@) + playable_formats(formats_at(song@, name@)),
{
    let more = json::list_or_default(song.get(name));
    let ghost all = formats_at(song@, name@);
    let ghost start = list_view(formats@);
    assert(list_view(more@) =~= all);
    assert(all.take(0).len() == 0);
    assert(start + Seq::<JsonView>::empty() =~= start);
    let mut i: usize = 0;
    while i < more.len()
        invariant
            i <= more@.len(),
            all == list_view(more@),
            list_view(formats@) == start + playable_formats(all.take(i as int)),
        decreases more.len() - i,
    {
        assert(all.take(i + 1).drop_last() =~= all.take(i as int));
        assert(all.take(i + 1).last() == more@[i as int]@);
        let spatial = match json::text_at(more[i].get("formatType")) {
            Some(kind) => text::same(kind, "Z3D"),
            None => false,
        };
        let ghost before = formats@;
        let ghost kept = playable_formats(all.take(i as int));
        if !spatial {
            formats.push(more[i].clone());
            assert(list_view(formats@) =~= list_view(before).push(more@[i as int]@));
            assert(list_view(formats@) =~= start + kept.push(more@[i as int]@));
        }
        i += 1;
    }
    assert(all.take(i as int) =~= all);
}

/// The formats of a song that may be asked for.
pub fn candidates_of(song: &Json) -> (result: Option<Vec<Json>>)
    ensures
        match result {
            Some(formats) => formats_of(song@) == Some(list_view(formats@)),
            None => formats_of(song@) is None,
        },
{
    if json::text_at(song.get("copyrightId")).is_none() {
        return None;
    }
    match song.get("rateFormats") {
        Some(rates) => {
            if rates.as_array().is_none() {
                return None;
            }
        },
        None => {
            return None;
        },
    }
    let mut formats: Vec<Json> = Vec::new();
    assert(list_view(formats@) =~= Seq::<JsonView>::empty());
    add_formats(&mut formats, song, "rateFormats");
    add_formats(&mut formats, song, "newRateFormats");
    add_formats(&mut formats, song, "audioFormats");
    proof {
        let a = formats_at(song@, "rateFormats"@);
        let b = formats_at(song@, "newRateFormats"@);
        let c = formats_at(song@, "audioFormats"@);
        lemma_playable_join(a + b, c);
        lemma_playable_join(a, b);
        assert(list_view(formats@) =~= playable_formats(a) + playable_formats(b) + playable_formats(c));
    }
    Some(formats)
}

/// How a number is written in a document.
#[derive(Debug)]
pub enum Amount {
    /// There is none.
    Missing,
    /// As a number.
    Number(Number),
    /// As a text that spells one.
    Text(String),
}

/// The mathematical value of an [`Amount`].
#[verifier::ext_equal]
pub enum AmountView {
    Missing,
    Number(Number),
    Text(Seq<char>),
}

impl View for Amount {
    type V = AmountView;

    open spec fn view(&self) -> AmountView {
        match *self {
            Amount::Missing => AmountView::Missing,
            Amount::Number(number) => AmountView::Number(number),
            Amount::Text(words) => AmountView::Text(words@),
        }
    }
}

/// The field of a format that tells its size: the first of these that is
/// there.
pub open spec fn size_field(format: JsonView) -> Option<JsonView> {
    either(
        field(format, "size"@),
        either(
            field(format, "iosSize"@),
            either(field(format, "androidSize"@), either(field(format, "isize"@), field(format, "asize"@))),
        ),
    )
}

/// The size of a format; a text is taken without the unit at its end.
pub open spec fn format_size(format: JsonView) -> AmountView {
    match size_field(format) {
        Some(JsonView::Number(number)) => AmountView::Number(number),
        Some(JsonView::Text(words)) => AmountView::Text(trimmed(stripped_end(words, "MB"@))),
        _ => AmountView::Missing,
    }
}

/// The size of a format is a number as it is, or a text without its unit and
/// the white space around it, from the first of the fields that is there.
pub proof fn sizes_are_read(format: JsonView, number: Number, words: Seq<char>)
    requires
        words.len() > 0,
        !text::is_space(words[0]),
        !text::is_space(words.last()),
        !text::ends(words, "MB"@),
    ensures
        field(format, "size"@) == Some(JsonView::Number(number)) ==> format_size(format) == AmountView::Number(number),
        field(format, "size"@) == Some(JsonView::Text(words + "MB"@)) ==> format_size(format) == AmountView::Text(words),
        field(format, "size"@) == Some(JsonView::Text(words)) ==> format_size(format) == AmountView::Text(words),
        field(format, "size"@) is None && field(format, "iosSize"@) == Some(JsonView::Number(number)) ==> format_size(
            format,
        ) == AmountView::Number(number),
        field(format, "size"@) is None && field(format, "iosSize"@) is None && field(format, "androidSize"@) == Some(
            JsonView::Number(number),
        ) ==> format_size(format) == AmountView::Number(number),
        field(format, "size"@) is None && field(format, "iosSize"@) is None && field(format, "androidSize"@) is None
            && field(format, "isize"@) == Some(JsonView::Number(number)) ==> format_size(format) == AmountView::Number(
            number,
        ),
        field(format, "size"@) is None && field(format, "iosSize"@) is None && field(format, "androidSize"@) is None
            && field(format, "isize"@) is None && field(format, "asize"@) == Some(JsonView::Number(number))
            ==> format_size(format) == AmountView::Number(number),
        field(format, "size"@) is None && field(format, "iosSize"@) is None && field(format, "androidSize"@) is None
            && field(format, "isize"@) is None && field(format, "asize"@) is None ==> format_size(format)
            == AmountView::Missing,
{
    reveal_strlit("MB");
    text::marks_are_stripped("MB"@, words);
    text::trimming_takes_white_space_alone(Seq::empty(), words, Seq::empty());
    assert(Seq::<char>::empty() + words + Seq::<char>::empty() =~= words);
}

/// The size of a format.
pub fn migu_size(format: &Json) -> (result: Amount)
    ensures
        result@ == format_size(format@),
{
    let size = json::first_of(
        format.get("size"),
        json::first_of(
            format.get("iosSize"),
            json::first_of(
                format.get("androidSize"),
                json::first_of(format.get("isize"), format.get("asize")),
            ),
        ),
    );
    match size {
        Some(Json::Number(number)) => Amount::Number(*number),
        Some(Json::Text(words)) => Amount::Text(text::trim(text::strip_end(words.as_str(), "MB")).to_owned()),
        _ => Amount::Missing,
    }
}

/// The place of a double-precision number, given by its bits, in the order of
/// all of them: from the negative ones by falling magnitude to the positive
/// ones by rising magnitude.
pub open spec fn total_place(bits: u64) -> i64 {
    if bits < 0x8000_0000_0000_0000 {
        bits as i64
    } else {
        (-1 - (bits - 0x8000_0000_0000_0000)) as i64
    }
}

/// Different numbers have different places; a positive number comes after every
/// negative one, and of two of one sign the greater magnitude is further out.
pub proof fn places_follow_magnitude(left: u64, right: u64)
    ensures
        total_place(left) == total_place(right) ==> left == right,
        left < 0x8000_0000_0000_0000 <= right ==> total_place(right) < total_place(left),
        left < right < 0x8000_0000_0000_0000 ==> total_place(left) < total_place(right),
        0x8000_0000_0000_0000 <= left < right ==> total_place(right) < total_place(left),
{
}

/// The place of a double-precision number in the order of all of them.
fn place_of(bits: u64) -> (result: i64)
    ensures
        result == total_place(bits),
{
    if bits < 0x8000_0000_0000_0000 {
        bits as i64
    } else {
        -1 - ((bits - 0x8000_0000_0000_0000) as i64)
    }
}

/// The places of sizes.
pub open spec fn size_places(sizes: Seq<u64>) -> Seq<i64> {
    Seq::new(sizes.len(), |i: int| total_place(sizes[i]))
}

/// Formats in the order in which they are asked for: the largest first, of
/// equal sizes the one that is listed first. `sizes` holds the bits of the size
/// of each as a double-precision number.
pub open spec fn largest_first(formats: Seq<JsonView>, sizes: Seq<u64>) -> Seq<JsonView> {
    arranged(formats, sorted_places(size_places(sizes), greater_first(), sizes.len()))
}

/// Puts formats in the order in which they are asked for.
pub fn order_candidates(formats: &Vec<Json>, sizes: &Vec<u64>) -> (result: Vec<Json>)
    requires
        formats@.len() == sizes@.len(),
    ensures
        list_view(result@) == largest_first(list_view(formats@), sizes@),
{
    let mut keys: Vec<i64> = Vec::new();
    let mut i: usize = 0;
    while i < sizes.len()
        invariant
            i <= sizes@.len(),
            keys@.len() == i,
            forall|j: int| 0 <= j < i ==> #[trigger] keys@[j] == total_place(sizes@[j]),
        decreases sizes.len() - i,
    {
        keys.push(place_of(sizes[i]));
        i += 1;
    }
    assert(keys@ =~= size_places(sizes@));
    let places = order::sort_descending(&keys);
    let mut result: Vec<Json> = Vec::new();
    let mut at: usize = 0;
    while at < places.len()
        invariant
            at <= places@.len(),
            places@.len() == formats@.len(),
            forall|j: int| 0 <= j < places@.len() ==> (#[trigger] places@[j]) < formats@.len(),
            result@.len() == at,
            forall|j: int| 0 <= j < at ==> (#[trigger] result@[j])@ == formats@[places@[j] as int]@,
        decreases places.len() - at,
    {
        result.push(formats[places[at]].clone());
        at += 1;
    }
    assert(list_view(result@) =~= arranged(list_view(formats@), places@));
    result
}

/// Of formats in order, a larger one never comes behind a smaller one.
pub proof fn largest_comes_first(formats: Seq<JsonView>, sizes: Seq<u64>, i: int, j: int)
    requires
        formats.len() == sizes.len() <= usize::MAX,
        0 <= i < j < formats.len(),
    ensures
        ({
            let places = sorted_places(size_places(sizes), greater_first(), sizes.len());
            &&& order::lists_all(places, formats.len())
            &&& largest_first(formats, sizes)[i] == formats[places[i] as int]
            &&& total_place(sizes[places[i] as int]) >= total_place(sizes[places[j] as int])
            &&& sizes[places[i] as int] == sizes[places[j] as int] ==> places[i] < places[j]
        }),
{
    order::greater_first_sorts();
    order::sorting_is_stable(size_places(sizes), greater_first());
}

/// What a format is asked for by: its tone and the type of its resource.
pub open spec fn listen_keys(format: JsonView) -> Option<(Seq<char>, Seq<char>)> {
    match (as_text(field(format, "formatType"@)), as_text(field(format, "resourceType"@))) {
        (Some(tone), Some(resource)) => Some((tone, resource)),
        _ => None,
    }
}

/// What a format is asked for by; nothing where it cannot be asked for.
pub fn listen_target(format: &Json) -> (result: Option<(String, String)>)
    ensures
        text::opt_pair(result) == listen_keys(format@),
{
    match json::text_at(format.get("formatType")) {
        Some(tone) => match json::text_at(format.get("resourceType")) {
            Some(resource) => Some((tone.to_owned(), resource.to_owned())),
            None => None,
        },
        None => None,
    }
}

/// The request for the address of a format of a song.
pub open spec fn listen_request_view(song: JsonView, tone: Seq<char>, resource: Seq<char>) -> RequestView {
    RequestView {
        method: Method::Get,
        url: "https://c.musicapp.migu.cn/strategy/listen-url/h5/v2.4"@,
        query: seq![
            ("contentId"@, text_or_empty(field(song, "contentId"@))),
            ("copyrightId"@, text_or_empty(field(song, "copyrightId"@))),
            ("resourceType"@, resource),
            ("netType"@, "01"@),
            ("toneFlag"@, tone),
            ("scene"@, ""@),
            ("lowerQualityContentId"@, text_or_empty(field(song, "contentId"@))),
        ],
        headers: migu_headers() + seq![
            ("Content-Type"@, "application/json;charset=UTF-8"@),
            ("birth"@, "h5page"@),
            ("signature"@, "1"@),
        ],
        body: BodyView::Empty,
        timeout: None,
    }
}

/// A format is asked for by its tone and the type of its resource, for the song
/// that it belongs to.
pub proof fn formats_are_asked_for_by_their_tone(
    song: JsonView,
    format: JsonView,
    id: Seq<char>,
    copyright: Seq<char>,
    tone: Seq<char>,
    resource: Seq<char>,
)
    ensures
        field(format, "formatType"@) == Some(JsonView::Text(tone)) && field(format, "resourceType"@) == Some(
            JsonView::Text(resource),
        ) ==> listen_keys(format) == Some((tone, resource)),
        field(format, "formatType"@) is None || field(format, "resourceType"@) is None ==> listen_keys(format) is None,
        listen_request_view(song, tone, resource).query.contains(("toneFlag"@, tone)),
        listen_request_view(song, tone, resource).query.contains(("resourceType"@, resource)),
        field(song, "contentId"@) == Some(JsonView::Text(id)) ==> listen_request_view(song, tone, resource).query.contains(
            ("contentId"@, id),
        ),
        field(song, "copyrightId"@) == Some(JsonView::Text(copyright)) ==> listen_request_view(
            song,
            tone,
            resource,
        ).query.contains(("copyrightId"@, copyright)),
{
    let pairs = listen_request_view(song, tone, resource).query;
    assert(pairs[4] == ("toneFlag"@, tone));
    assert(pairs[2] == ("resourceType"@, resource));
    assert(pairs[0].0 == "contentId"@);
    assert(pairs[1].0 == "copyrightId"@);
}

/// The request for the address of a format of a song.
pub fn listen_request(song: &Json, tone: &str, resource: &str) -> (result: Request)
    ensures
        result@ == listen_request_view(song@, tone@, resource@),
{
    let id = json::text_or_default(song.get("contentId"));
    let copyright = json::text_or_default(song.get("copyrightId"));
    let mut query = no_pairs();
    add_pair(&mut query, "contentId", id.as_str());
    add_pair(&mut query, "copyrightId", copyright.as_str());
    add_pair(&mut query, "resourceType", resource);
    add_pair(&mut query, "netType", "01");
    add_pair(&mut query, "toneFlag", tone);
    add_pair(&mut query, "scene", "");
    add_pair(&mut query, "lowerQualityContentId", id.as_str());
    let mut headers = common_headers();
    add_pair(&mut headers, "Content-Type", "application/json;charset=UTF-8");
    add_pair(&mut headers, "birth", "h5page");
    add_pair(&mut headers, "signature", "1");
    Request {
        method: Method::Get,
        url: "https://c.musicapp.migu.cn/strategy/listen-url/h5/v2.4".to_owned(),
        query,
        headers,
        body: Body::Empty,
        timeout: None,
    }
}

/// The address in a reply to such a request; empty where there is none.
pub open spec fn listen_url(reply: Option<JsonView>) -> Seq<char> {
    text_or_empty(child(child(reply, "data"@), "url"@))
}

/// The address in a reply; nothing where it is missing or empty.
pub open spec fn address_found(reply: Option<JsonView>) -> Option<Seq<char>> {
    if listen_url(reply).len() == 0 {
        None
    } else {
        Some(listen_url(reply))
    }
}

/// An address in a reply is taken as it is, unless it is empty.
pub proof fn addresses_are_taken(reply: JsonView, data: JsonView, url: Seq<char>)
    requires
        child(Some(reply), "data"@) == Some(data),
    ensures
        child(Some(data), "url"@) == Some(JsonView::Text(url)) && url.len() > 0 ==> address_found(Some(reply)) == Some(url),
        child(Some(data), "url"@) == Some(JsonView::Text(url)) && url.len() == 0 ==> address_found(Some(reply)) is None,
        child(Some(data), "url"@) is None ==> address_found(Some(reply)) is None,
        address_found(None) is None,
{
}

/// The address in a reply; nothing where it is missing or empty, so that the
/// next format has to be asked for.
pub fn listen_address(reply: Option<&Json>) -> (result: Option<String>)
    ensures
        opt(result) == address_found(opt_ref(reply)),
{
    let url = json::text_or_default(json::step(json::step(reply, "data"), "url"));
    if url.as_str().is_empty() {
        None
    } else {
        Some(url)
    }
}

/// The seconds of a song in a reply.
pub open spec fn listen_seconds(reply: Option<JsonView>) -> AmountView {
    match child(child(child(reply, "data"@), "song"@), "duration"@) {
        Some(JsonView::Number(number)) => AmountView::Number(number),
        Some(JsonView::Text(words)) => AmountView::Text(words),
        _ => AmountView::Missing,
    }
}

/// The address and the length in a reply.
pub proof fn replies_give_address_and_length(reply: JsonView, data: JsonView, song: JsonView, url: Seq<char>, number: Number)
    requires
        child(Some(reply), "data"@) == Some(data),
    ensures
        child(Some(data), "url"@) == Some(JsonView::Text(url)) ==> listen_url(Some(reply)) == url,
        child(Some(data), "url"@) is None ==> listen_url(Some(reply)).len() == 0,
        child(Some(data), "song"@) == Some(song) && child(Some(song), "duration"@) == Some(JsonView::Number(number))
            ==> listen_seconds(Some(reply)) == AmountView::Number(number),
        child(Some(data), "song"@) == Some(song) && child(Some(song), "duration"@) == Some(JsonView::Text(url))
            ==> listen_seconds(Some(reply)) == AmountView::Text(url),
        child(Some(data), "song"@) is None ==> listen_seconds(Some(reply)) == AmountView::Missing,
        listen_url(None).len() == 0,
        listen_seconds(None) == AmountView::Missing,
{
}

/// The seconds of a song in a reply.
pub fn duration_seconds(reply: Option<&Json>) -> (result: Amount)
    ensures
        result@ == listen_seconds(opt_ref(reply)),
{
    match json::step(json::step(json::step(reply, "data"), "song"), "duration") {
        Some(Json::Number(number)) => Amount::Number(*number),
        Some(Json::Text(words)) => Amount::Text(words.clone()),
        _ => Amount::Missing,
    }
}

/// The format that is taken, from one on, where `replies` are what would be
/// replied for each.
pub open spec fn taken_from(formats: Seq<JsonView>, replies: Seq<Option<JsonView>>, from: nat) -> Option<nat>
    decreases formats.len() - from,
{
    if from >= formats.len() {
        None
    } else if listen_keys(formats[from as int]) is Some && listen_url(replies[from as int]).len() > 0 {
        Some(from)
    } else {
        taken_from(formats, replies, from + 1)
    }
}

/// The next format, from one on, that can be asked for.
pub fn next_format(formats: &Vec<Json>, from: usize) -> (result: Option<(usize, String, String)>)
    ensures
        match result {
            Some((at, tone, resource)) => from <= at < formats@.len() && listen_keys(formats@[at as int]@) == Some(
                (tone@, resource@),
            ) && forall|i: int| from <= i < at ==> listen_keys((#[trigger] formats@[i])@) is None,
            None => forall|i: int| from <= i < formats@.len() ==> listen_keys((#[trigger] formats@[i])@) is None,
        },
{
    let mut at: usize = from;
    while at < formats.len()
        invariant
            from <= at,
            forall|i: int| from <= i < at && i < formats@.len() ==> listen_keys((#[trigger] formats@[i])@) is None,
        decreases formats.len() - at,
    {
        match listen_target(&formats[at]) {
            Some((tone, resource)) => {
                return Some((at, tone, resource));
            },
            None => {},
        }
        at += 1;
    }
    None
}

/// The first format that can be asked for and has an address is taken: no
/// earlier one has both.
pub proof fn first_address_is_taken(formats: Seq<JsonView>, replies: Seq<Option<JsonView>>, from: nat)
    ensures
        match taken_from(formats, replies, from) {
            Some(at) => from <= at < formats.len() && listen_keys(formats[at as int]) is Some && listen_url(
                replies[at as int],
            ).len() > 0 && forall|i: int|
                from <= i < at ==> listen_keys(#[trigger] formats[i]) is None || listen_url(replies[i]).len() == 0,
            None => forall|i: int|
                from <= i < formats.len() ==> listen_keys(#[trigger] formats[i]) is None || listen_url(
                    replies[i],
                ).len() == 0,
        },
    decreases formats.len() - from,
{
    if from < formats.len() && !(listen_keys(formats[from as int]) is Some && listen_url(
        replies[from as int],
    ).len() > 0) {
        first_address_is_taken(formats, replies, from + 1);
    }
}

// ---------------------------------------------------------------------------
// Tracks
// ---------------------------------------------------------------------------

/// A stream that was found for a song: its address, its tone, and how many
/// seconds it lasts.
#[derive(Debug)]
pub struct MiguStream {
    pub url: String,
    pub tone: String,
    pub seconds: u64,
}

/// The mathematical value of a [`MiguStream`].
#[verifier::ext_equal]
pub struct MiguStreamView {
    pub url: Seq<char>,
    pub tone: Seq<char>,
    pub seconds: u64,
}

impl View for MiguStream {
    type V = MiguStreamView;

    open spec fn view(&self) -> MiguStreamView {
        MiguStreamView { url: self.url@, tone: self.tone@, seconds: self.seconds }
    }
}

/// The stream of a song for which none was found.
pub open spec fn silent() -> MiguStreamView {
    MiguStreamView { url: Seq::empty(), tone: Seq::empty(), seconds: 0 }
}

/// A song without a stream becomes a track without an address, which is never
/// taken for one that can be played.
pub proof fn silent_songs_have_no_address(song: JsonView)
    ensures
        track_of_song(song, silent()).audio_url.len() == 0,
        sources::searched(track_of_song(song, silent())) is Err,
{
}

/// The stream of a song for which none was found.
pub fn no_stream() -> (result: MiguStream)
    ensures
        result@ == silent(),
{
    MiguStream { url: String::new(), tone: String::new(), seconds: 0 }
}

/// The extension of a tone.
pub open spec fn tone_extension(tone: Seq<char>) -> Seq<char> {
    if tone == "SQ"@ || tone == "ZQ"@ || tone == "ZQ24"@ || tone == "ZQ32"@ {
        "flac"@
    } else {
        "mp3"@
    }
}

/// The extension of a tone.
pub fn extension_of_tone(tone: &str) -> (result: &'static str)
    ensures
        result@ == tone_extension(tone@),
{
    if text::same(tone, "SQ") || text::same(tone, "ZQ") || text::same(tone, "ZQ24") || text::same(tone, "ZQ32") {
        "flac"
    } else {
        "mp3"
    }
}

/// The format of a tone.
pub open spec fn tone_format(tone: Seq<char>) -> Seq<char> {
    if tone == "SQ"@ || tone == "ZQ"@ || tone == "ZQ24"@ || tone == "ZQ32"@ {
        "FLAC"@
    } else {
        "MP3"@
    }
}

/// The format of a tone is its extension in capital letters.
proof fn lemma_format(tone: Seq<char>)
    ensures
        in_capitals(tone_extension(tone)) == tone_format(tone),
{
    reveal_strlit("flac");
    reveal_strlit("mp3");
    reveal_strlit("FLAC");
    reveal_strlit("MP3");
    assert(text::all_ascii("flac"@) && text::all_ascii("mp3"@));
    assert(text::raised("flac"@) =~= "FLAC"@);
    assert(text::raised("mp3"@) =~= "MP3"@);
}

/// The names in a list of performers.
pub open spec fn names_in(singers: Seq<JsonView>) -> Seq<Seq<char>>
    decreases singers.len(),
{
    if singers.len() == 0 {
        Seq::empty()
    } else {
        match as_text(field(singers.last(), "name"@)) {
            Some(name) => names_in(singers.drop_last()).push(name),
            None => names_in(singers.drop_last()),
        }
    }
}

/// The performers of a song.
pub open spec fn song_artist(song: JsonView) -> Seq<char> {
    match as_list(field(song, "singers"@)) {
        Some(singers) => joined(names_in(singers), " / "@),
        None => Seq::empty(),
    }
}

/// The address of the picture of a song: of its last picture.
pub open spec fn song_artwork(song: JsonView) -> Seq<char> {
    match as_list(field(song, "imgItems"@)) {
        Some(pictures) => if pictures.len() == 0 {
            Seq::empty()
        } else {
            text_or_empty(either(field(pictures.last(), "img"@), field(pictures.last(), "url"@)))
        },
        None => Seq::empty(),
    }
}

/// The performers of a song.
fn artist_of(song: &Json) -> (result: String)
    ensures
        result@ == song_artist(song@),
{
    let mut names: Vec<String> = Vec::new();
    let singers = json::list_or_default(song.get("singers"));
    let ghost all = list_view(singers@);
    assert(all.take(0).len() == 0);
    assert(texts(names@) =~= Seq::<Seq<char>>::empty());
    let mut i: usize = 0;
    while i < singers.len()
        invariant
            i <= singers@.len(),
            all == list_view(singers@),
            texts(names@) == names_in(all.take(i as int)),
        decreases singers.len() - i,
    {
        assert(all.take(i + 1).drop_last() =~= all.take(i as int));
        assert(all.take(i + 1).last() == singers@[i as int]@);
        let ghost before = names@;
        match json::text_at(singers[i].get("name")) {
            Some(name) => {
                names.push(name.to_owned());
                assert(texts(names@) =~= texts(before).push(name@));
            },
            None => {},
        }
        i += 1;
    }
    assert(all.take(i as int) =~= all);
    text::join(&names, " / ")
}

/// The address of the picture of a song.
fn artwork_of(song: &Json) -> (result: String)
    ensures
        result@ == song_artwork(song@),
{
    let pictures = json::list_or_default(song.get("imgItems"));
    if pictures.len() == 0 {
        return String::new();
    }
    let last = &pictures[pictures.len() - 1];
    assert(list_view(pictures@).last() == last@);
    json::text_or_default(json::first_of(last.get("img"), last.get("url")))
}

/// The headers to fetch a stream of Migu with.
pub open spec fn stream_headers() -> JsonView {
    JsonView::Record(seq![("User-Agent"@, JsonView::Text(MIGU_UA@))])
}

/// What is kept with a track.
pub open spec fn migu_payload(lyric_url: Seq<char>, extension: Seq<char>) -> JsonView {
    JsonView::Record(
        seq![
            ("lyricUrl"@, JsonView::Text(lyric_url)),
            ("extension"@, JsonView::Text(extension)),
            ("downloadHeaders"@, stream_headers()),
        ],
    )
}

/// The track of a song and of what was found for it.
pub open spec fn track_of_song(song: JsonView, stream: MiguStreamView) -> TrackView {
    TrackView {
        id: "migu:"@ + text_or_empty(field(song, "contentId"@)),
        source: "MiguMusicClient"@,
        title: text_or_empty(field(song, "name"@)),
        artist: song_artist(song),
        album: text_or_empty(field(song, "albumName"@)),
        artwork_url: song_artwork(song),
        audio_url: stream.url,
        duration_ms: (stream.seconds * 1000) as u64,
        format: Some(tone_format(stream.tone)),
        quality: Some(
            if stream.tone.len() == 0 {
                quality_in_url(stream.url)
            } else {
                stream.tone
            },
        ),
        adapter_payload: Some(
            migu_payload(text_or_empty(field(song, "lyricUrl"@)), tone_extension(stream.tone)),
        ),
    }
}

/// The stream of a song is fetched with the headers of its source, and its file
/// is named by the container of its tone.
pub proof fn source_headers_are_sent(song: JsonView, stream: MiguStreamView)
    ensures
        stream_headers_of(track_of_song(song, stream)) == seq![("User-Agent"@, MIGU_UA@)],
        download_extension(track_of_song(song, stream)) == tone_extension(stream.tone),
{
    let agent = ("User-Agent"@, MIGU_UA@);
    let lyric_url = text_or_empty(field(song, "lyricUrl"@));
    let extension = tone_extension(stream.tone);
    let payload = migu_payload(lyric_url, extension);
    let first = Seq::empty().push(("lyricUrl"@, JsonView::Text(lyric_url)));
    let second = first.push(("extension"@, JsonView::Text(extension)));
    assert(payload->Record_0 =~= second.push(("downloadHeaders"@, stream_headers())));
    reveal_strlit("extension");
    reveal_strlit("downloadHeaders");
    assert("extension"@[0] != "downloadHeaders"@[0]);
    json::last_value_counts(second, "downloadHeaders"@, stream_headers());
    json::last_value_counts(first, "extension"@, JsonView::Text(extension));
    json::other_fields_stay(second, "downloadHeaders"@, stream_headers(), "extension"@);
    kept_headers_are_sent(track_of_song(song, stream), payload, agent, agent);
    reveal_strlit("flac");
    reveal_strlit("mp3");
    assert(lowered("flac"@) =~= "flac"@);
    assert(lowered("mp3"@) =~= "mp3"@);
    assert(!text::is_space("flac"@[0]) && !text::is_space("mp3"@[0]));
}

/// A song becomes a track with what was found for it: title and album are the
/// song's, the identifier leads back to it, and the address, the length and the
/// tone are those of the stream.
pub proof fn songs_become_their_tracks(
    song: JsonView,
    stream: MiguStreamView,
    id: Seq<char>,
    title: Seq<char>,
    album: Seq<char>,
    lyrics: Seq<char>,
    message: Seq<char>,
)
    requires
        stream.seconds * 1000 <= u64::MAX,
    ensures
        field(song, "name"@) == Some(JsonView::Text(title)) ==> track_of_song(song, stream).title == title,
        field(song, "albumName"@) == Some(JsonView::Text(album)) ==> track_of_song(song, stream).album == album,
        field(song, "contentId"@) == Some(JsonView::Text(id)) ==> sources::song_of(
            track_of_song(song, stream),
            "migu:"@,
            message,
        ) == Ok::<Seq<char>, Seq<char>>(id),
        field(song, "lyricUrl"@) == Some(JsonView::Text(lyrics)) && lyrics.len() > 0 ==> lyric_url(
            track_of_song(song, stream),
        ) == Some(lyrics),
        field(song, "lyricUrl"@) is None ==> lyric_url(track_of_song(song, stream)) is None,
        track_of_song(song, stream).audio_url == stream.url,
        track_of_song(song, stream).duration_ms == stream.seconds * 1000,
        stream.tone.len() > 0 ==> track_of_song(song, stream).quality == Some(stream.tone),
        stream.tone.len() == 0 ==> track_of_song(song, stream).quality == Some(quality_in_url(stream.url)),
        track_of_song(song, stream).source == sources::source_id(sources::Source::Migu),
{
    let track = track_of_song(song, stream);
    sources::songs_are_looked_up_by_their_identifier(track, "migu:"@, id, message);
    let fields = track.adapter_payload->0->Record_0;
    reveal_strlit("lyricUrl");
    reveal_strlit("extension");
    reveal_strlit("downloadHeaders");
    assert("lyricUrl"@.len() == 8 && "extension"@.len() == 9 && "downloadHeaders"@.len() == 15);
    json::field_stands_at(fields, "lyricUrl"@, 0);
}

/// The lossless tones are FLAC, in the name of the file as in what is shown;
/// every other tone is MP3.
pub proof fn lossless_tones_are_flac(song: JsonView, stream: MiguStreamView)
    ensures
        ({
            let lossless = stream.tone == "SQ"@ || stream.tone == "ZQ"@ || stream.tone == "ZQ24"@ || stream.tone
                == "ZQ32"@;
            let track = track_of_song(song, stream);
            &&& lossless ==> track.format == Some("FLAC"@) && download_extension(track) == "flac"@
            &&& !lossless ==> track.format == Some("MP3"@) && download_extension(track) == "mp3"@
        }),
{
    source_headers_are_sent(song, stream);
}

/// The performers are those that have a name, in their order; the picture is the
/// last one.
pub proof fn performers_and_picture(
    song: JsonView,
    singers: Seq<JsonView>,
    singer: JsonView,
    name: Seq<char>,
    pictures: Seq<JsonView>,
    picture: JsonView,
    url: Seq<char>,
)
    ensures
        field(singer, "name"@) == Some(JsonView::Text(name)) ==> names_in(singers.push(singer)) == names_in(singers).push(
            name,
        ),
        field(singer, "name"@) is None ==> names_in(singers.push(singer)) == names_in(singers),
        names_in(Seq::empty()).len() == 0,
        field(song, "singers"@) == Some(JsonView::List(seq![singer])) && field(singer, "name"@) == Some(
            JsonView::Text(name),
        ) ==> song_artist(song) == name,
        field(song, "singers"@) == Some(JsonView::List(singers)) ==> song_artist(song) == joined(
            names_in(singers),
            " / "@,
        ),
        field(song, "imgItems"@) == Some(JsonView::List(pictures.push(picture))) && field(picture, "img"@) == Some(
            JsonView::Text(url),
        ) ==> song_artwork(song) == url,
        field(song, "imgItems"@) == Some(JsonView::List(pictures.push(picture))) && field(picture, "img"@) is None
            && field(picture, "url"@) == Some(JsonView::Text(url)) ==> song_artwork(song) == url,
        field(song, "imgItems"@) is None ==> song_artwork(song).len() == 0,
{
    assert(singers.push(singer).drop_last() =~= singers);
    let one = Seq::empty().push(singer);
    assert(one =~= seq![singer]);
    assert(one.drop_last() =~= Seq::<JsonView>::empty());
    assert(pictures.push(picture).last() == picture);
    if field(singer, "name"@) == Some(JsonView::Text(name)) {
        assert(names_in(one.drop_last()) =~= Seq::<Seq<char>>::empty());
        assert(one.last() == singer);
        assert(names_in(one) =~= seq![name]);
        text::parts_are_joined_in_order(Seq::empty(), name, " / "@);
    }
}

/// The track of a song and of what was found for it.
pub fn track_from_song(song: &Json, stream: MiguStream) -> (result: Track)
    requires
        stream.seconds * 1000 <= u64::MAX,
    ensures
        result@ == track_of_song(song@, stream@),
{
    let extension = extension_of_tone(stream.tone.as_str());
    proof {
        lemma_format(stream.tone@);
    }
    let lyric_url = json::text_or_default(song.get("lyricUrl"));
    let mut headers = no_fields();
    put(&mut headers, "User-Agent", text_value(MIGU_UA));
    assert(fields_view(headers@) =~= stream_headers()->Record_0);
    let mut payload = no_fields();
    put(&mut payload, "lyricUrl", text_value(lyric_url.as_str()));
    put(&mut payload, "extension", text_value(extension));
    put(&mut payload, "downloadHeaders", record(headers));
    assert(fields_view(payload@) =~= migu_payload(lyric_url@, extension@)->Record_0);
    let quality = if stream.tone.as_str().is_empty() {
        quality_from_url(stream.url.as_str())
    } else {
        stream.tone.clone()
    };
    Track {
        id: concat("migu:", json::text_or_default(song.get("contentId")).as_str()),
        source: "MiguMusicClient".to_owned(),
        title: json::text_or_default(song.get("name")),
        artist: artist_of(song),
        album: json::text_or_default(song.get("albumName")),
        artwork_url: artwork_of(song),
        audio_url: stream.url,
        duration_ms: stream.seconds * 1000,
        format: Some(text::to_upper(extension)),
        quality: Some(quality),
        adapter_payload: Some(record(payload)),
    }
}

// ---------------------------------------------------------------------------
// Lyrics
// ---------------------------------------------------------------------------

/// The address of the lyrics of a track.
pub open spec fn lyric_url(track: TrackView) -> Option<Seq<char>> {
    match track.adapter_payload {
        Some(payload) => match as_text(field(payload, "lyricUrl"@)) {
            Some(url) if url.len() > 0 => Some(url),
            _ => None,
        },
        None => None,
    }
}

/// The request for the lyrics of a track, where they have an address.
pub open spec fn lyrics_request_view(track: TrackView) -> Option<RequestView> {
    match lyric_url(track) {
        Some(url) => Some(
            RequestView {
                method: Method::Get,
                url,
                query: seq![],
                headers: seq![("User-Agent"@, MIGU_UA@), ("Referer"@, "https://y.migu.cn/"@)],
                body: BodyView::Empty,
                timeout: None,
            },
        ),
        None => None,
    }
}

/// The lyrics of a song that was found are fetched from the address that came
/// with it.
pub proof fn lyrics_are_fetched_from_their_address(song: JsonView, stream: MiguStreamView, lyrics: Seq<char>)
    requires
        stream.seconds * 1000 <= u64::MAX,
    ensures
        field(song, "lyricUrl"@) == Some(JsonView::Text(lyrics)) && lyrics.len() > 0 ==> (lyrics_request_view(
            track_of_song(song, stream),
        ) matches Some(request) && request.url == lyrics && request.method == Method::Get),
        field(song, "lyricUrl"@) is None ==> lyrics_request_view(track_of_song(song, stream)) is None,
{
    let none = Seq::<char>::empty();
    songs_become_their_tracks(song, stream, none, none, none, lyrics, none);
}

/// The request for the lyrics of a track, where they have an address.
pub fn lyrics_request(track: &Track) -> (result: Option<Request>)
    ensures
        lyrics_request_view(track@) == (match result {
            Some(request) => Some(request@),
            None => None,
        }),
{
    match &track.adapter_payload {
        Some(payload) => match json::text_at(payload.get("lyricUrl")) {
            Some(url) => {
                if url.is_empty() {
                    return None;
                }
                let mut headers = no_pairs();
                add_pair(&mut headers, "User-Agent", MIGU_UA);
                add_pair(&mut headers, "Referer", "https://y.migu.cn/");
                Some(
                    Request {
                        method: Method::Get,
                        url: url.to_owned(),
                        query: no_pairs(),
                        headers,
                        body: Body::Empty,
                        timeout: None,
                    },
                )
            },
            None => None,
        },
        None => None,
    }
}

/// The lyrics of a reply, unless they are missing or blank.
pub fn lyrics_text(words: Option<String>) -> (result: Option<String>)
    ensures
        opt(result) == sources::unless_blank(opt(words)),
{
    sources::keep_words(words)
}

} // verus!
