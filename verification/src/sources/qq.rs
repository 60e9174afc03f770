//! QQ Music.
use crate::domain::{tracks_view, Track, TrackView};
use crate::download::download_extension;
use crate::json::{self, as_list, as_text, child, either, field, fields_view, list_view, no_fields, opt_ref, put, record, text_or_empty, text_value, with_field, Json, JsonView, Number};
use crate::playback::{kept_headers_are_sent, stream_headers_of};
use crate::request::{add_pair, no_pairs, Body, BodyView, Method, Request, RequestView};
use crate::sources::{self, lookup_of, short_extension, song_of, track_result, Lookup};
use crate::text::{self, begins, concat, decimal, hexadecimal, in_capitals, is_blank, joined, lowered, opt, opt_str, stripped_start, texts, without_prefix};
use vstd::prelude::*;
use vstd::string::*;

verus! {

pub const QQ_API: &'static str = "https://u.y.qq.com/cgi-bin/musicu.fcg";

pub const QQ_STREAM: &'static str = "https://isure.stream.qqmusic.qq.com/";

pub const QQ_UA: &'static str = "Mozilla/5.0 (Windows NT 10.0; Win64; x64) AppleWebKit/537.36 (KHTML, like Gecko) Chrome/148.0.0.0 Safari/537.36";

// ---------------------------------------------------------------------------
// Search cards
// ---------------------------------------------------------------------------

/// A performer of a song.
#[derive(Debug, Clone)]
pub struct QqSinger {
    pub name: String,
}

/// The album of a song.
#[derive(Debug, Clone, Default)]
pub struct QqAlbum {
    pub title: String,
    pub mid: String,
}

/// The sizes of the files of a song, zero where there is no such file.
#[derive(Debug, Clone, Copy, Default)]
pub struct QqFile {
    pub size_128mp3: u64,
    pub size_192aac: u64,
    pub size_192ogg: u64,
    pub size_96aac: u64,
    pub size_96ogg: u64,
    pub size_24aac: u64,
    pub size_320mp3: u64,
    pub size_ape: u64,
    pub size_dolby: u64,
    pub size_flac: u64,
    pub size_hires: u64,
}

/// A song as a search card describes it. The mobile search gives its sizes in
/// `file`, the legacy search in the fields beside it.
#[derive(Debug, Clone)]
pub struct QqSong {
    pub mid: String,
    pub title: String,
    pub singer: Vec<QqSinger>,
    pub album: QqAlbum,
    pub interval: u64,
    pub file: QqFile,
    pub size128: u64,
    pub size320: u64,
    pub sizeape: u64,
    pub sizeflac: u64,
    pub sizeogg: u64,
}

/// The label and the format of the best file that a search card offers and
/// that a stream can be resolved to. Dolby and Hi-Res files are never resolved.
pub open spec fn card_quality(song: QqSong) -> (Option<Seq<char>>, Option<Seq<char>>) {
    let file = song.file;
    if file.size_flac > 0 || file.size_ape > 0 || song.sizeflac > 0 || song.sizeape > 0 {
        (Some("无损"@), Some("FLAC"@))
    } else if file.size_320mp3 > 0 || song.size320 > 0 || song.sizeogg > 0 {
        (Some("320K"@), Some("MP3"@))
    } else if file.size_192aac > 0 || file.size_192ogg > 0 {
        (Some("192K"@), Some("MP3"@))
    } else if file.size_128mp3 > 0 || song.size128 > 0 {
        (Some("128K"@), Some("MP3"@))
    } else if file.size_96aac > 0 || file.size_96ogg > 0 {
        (Some("96K"@), Some("MP3"@))
    } else if file.size_24aac > 0 {
        (Some("48K"@), Some("AAC"@))
    } else {
        (None, None)
    }
}

/// A label and a format.
fn tier(quality: &str, format: &str) -> (result: (Option<String>, Option<String>))
    ensures
        opt(result.0) == Some(quality@),
        opt(result.1) == Some(format@),
{
    (Some(quality.to_owned()), Some(format.to_owned()))
}

/// The quality reported by a search card, in line with what a stream is
/// resolved to: lossless first. Reads both the mobile sizes and the legacy
/// ones, so that a quality shows whichever search answered.
pub fn qq_quality(song: &QqSong) -> (result: (Option<String>, Option<String>))
    ensures
        (opt(result.0), opt(result.1)) == card_quality(*song),
{
    let file = &song.file;
    if file.size_flac > 0 || file.size_ape > 0 || song.sizeflac > 0 || song.sizeape > 0 {
        tier("无损", "FLAC")
    } else if file.size_320mp3 > 0 || song.size320 > 0 || song.sizeogg > 0 {
        tier("320K", "MP3")
    } else if file.size_192aac > 0 || file.size_192ogg > 0 {
        tier("192K", "MP3")
    } else if file.size_128mp3 > 0 || song.size128 > 0 {
        tier("128K", "MP3")
    } else if file.size_96aac > 0 || file.size_96ogg > 0 {
        tier("96K", "MP3")
    } else if file.size_24aac > 0 {
        tier("48K", "AAC")
    } else {
        (None, None)
    }
}

// ---------------------------------------------------------------------------
// Requests
// ---------------------------------------------------------------------------

/// What every request to the mobile interface carries.
pub open spec fn common_view() -> JsonView {
    JsonView::Record(
        seq![
            ("ct"@, JsonView::Text("11"@)),
            ("tmeAppID"@, JsonView::Text("qqmusic"@)),
            ("format"@, JsonView::Text("json"@)),
            ("inCharset"@, JsonView::Text("utf-8"@)),
            ("outCharset"@, JsonView::Text("utf-8"@)),
            ("uid"@, JsonView::Text("3931641530"@)),
            ("cv"@, JsonView::Number(Number::Unsigned(13020508))),
            ("v"@, JsonView::Number(Number::Unsigned(13020508))),
            ("QIMEI36"@, JsonView::Text("6c9d3cd110abca9b16311cee10001e717614"@)),
        ],
    )
}

/// What every request to the mobile interface carries.
pub fn common() -> (result: Json)
    ensures
        result@ == common_view(),
{
    let mut fields = no_fields();
    put(&mut fields, "ct", text_value("11"));
    put(&mut fields, "tmeAppID", text_value("qqmusic"));
    put(&mut fields, "format", text_value("json"));
    put(&mut fields, "inCharset", text_value("utf-8"));
    put(&mut fields, "outCharset", text_value("utf-8"));
    put(&mut fields, "uid", text_value("3931641530"));
    put(&mut fields, "cv", json::number_value(13020508));
    put(&mut fields, "v", json::number_value(13020508));
    put(&mut fields, "QIMEI36", text_value("6c9d3cd110abca9b16311cee10001e717614"));
    assert(fields_view(fields@) =~= common_view()->Record_0);
    record(fields)
}

/// A request identifier: the clock and a counter, mixed, as 32 hexadecimal
/// digits.
pub fn guid(nanos: u64, count: u64) -> (result: String)
    ensures
        result@ == hexadecimal((nanos ^ count) as nat, 32),
{
    text::hex_text(nanos ^ count, 32)
}

/// The headers of the requests to the mobile interface.
pub open spec fn api_headers() -> Seq<(Seq<char>, Seq<char>)> {
    seq![("User-Agent"@, QQ_UA@), ("Referer"@, "https://y.qq.com/"@), ("Origin"@, "https://y.qq.com/"@)]
}

/// A request to the mobile interface.
pub open spec fn api_request_view(payload: JsonView) -> RequestView {
    RequestView {
        method: Method::Post,
        url: QQ_API@,
        query: seq![],
        headers: api_headers(),
        body: BodyView::Json(payload),
        timeout: None,
    }
}

/// A request to the mobile interface.
fn api_request(payload: Json) -> (result: Request)
    ensures
        result@ == api_request_view(payload@),
{
    let mut headers = no_pairs();
    add_pair(&mut headers, "User-Agent", QQ_UA);
    add_pair(&mut headers, "Referer", "https://y.qq.com/");
    add_pair(&mut headers, "Origin", "https://y.qq.com/");
    Request {
        method: Method::Post,
        url: QQ_API.to_owned(),
        query: no_pairs(),
        headers,
        body: Body::Json(payload),
        timeout: None,
    }
}

/// The parameters of the mobile search.
pub open spec fn search_param_view(guid: Seq<char>, query: Seq<char>, limit: usize, page: u32) -> JsonView {
    JsonView::Record(
        seq![
            ("searchid"@, JsonView::Text(guid)),
            ("query"@, JsonView::Text(query)),
            ("search_type"@, JsonView::Number(Number::Unsigned(0))),
            ("num_per_page"@, JsonView::Number(Number::Unsigned(limit as u64))),
            ("page_num"@, JsonView::Number(Number::Unsigned(page as u64))),
            ("highlight"@, JsonView::Number(Number::Unsigned(1))),
            ("grp"@, JsonView::Number(Number::Unsigned(1))),
        ],
    )
}

/// A call of a method of a module of the mobile interface.
pub open spec fn call_view(module: Seq<char>, method: Seq<char>, param: JsonView) -> JsonView {
    JsonView::Record(
        seq![("module"@, JsonView::Text(module)), ("method"@, JsonView::Text(method)), ("param"@, param)],
    )
}

/// A request to the mobile interface: the common part and one call.
pub open spec fn payload_view(name: Seq<char>, call: JsonView) -> JsonView {
    JsonView::Record(seq![("comm"@, common_view()), (name, call)])
}

/// The mobile search for a query.
pub open spec fn search_payload_view(guid: Seq<char>, query: Seq<char>, limit: usize, page: u32) -> JsonView {
    payload_view(
        "music.search.SearchCgiService.DoSearchForQQMusicMobile"@,
        call_view(
            "music.search.SearchCgiService"@,
            "DoSearchForQQMusicMobile"@,
            search_param_view(guid, query, limit, page),
        ),
    )
}

/// A request to the mobile interface: the common part and one call.
fn payload(name: &str, module: &str, method: &str, param: Json) -> (result: Json)
    ensures
        result@ == payload_view(name@, call_view(module@, method@, param@)),
{
    let mut call = no_fields();
    put(&mut call, "module", text_value(module));
    put(&mut call, "method", text_value(method));
    put(&mut call, "param", param);
    assert(fields_view(call@) =~= call_view(module@, method@, param@)->Record_0);
    let mut payload = no_fields();
    put(&mut payload, "comm", common());
    put(&mut payload, name, record(call));
    assert(fields_view(payload@) =~= payload_view(name@, call_view(module@, method@, param@))->Record_0);
    record(payload)
}

/// The mobile search for a query.
pub fn search_request(guid: &str, query: &str, limit: usize, page: u32) -> (result: Request)
    ensures
        result@ == api_request_view(search_payload_view(guid@, query@, limit, page)),
{
    let mut param = no_fields();
    put(&mut param, "searchid", text_value(guid));
    put(&mut param, "query", text_value(query));
    put(&mut param, "search_type", json::number_value(0));
    put(&mut param, "num_per_page", json::number_value(limit as u64));
    put(&mut param, "page_num", json::number_value(page as u64));
    put(&mut param, "highlight", json::number_value(1));
    put(&mut param, "grp", json::number_value(1));
    assert(fields_view(param@) =~= search_param_view(guid@, query@, limit, page)->Record_0);
    api_request(
        payload(
            "music.search.SearchCgiService.DoSearchForQQMusicMobile",
            "music.search.SearchCgiService",
            "DoSearchForQQMusicMobile",
            record(param),
        ),
    )
}

/// The legacy search for a query.
pub open spec fn legacy_request_view(query: Seq<char>, limit: nat, page: nat) -> RequestView {
    RequestView {
        method: Method::Get,
        url: "https://c.y.qq.com/soso/fcgi-bin/client_search_cp"@,
        query: seq![("format"@, "json"@), ("p"@, decimal(page)), ("n"@, decimal(limit)), ("w"@, query)],
        headers: seq![("User-Agent"@, QQ_UA@), ("Referer"@, "https://y.qq.com/"@)],
        body: BodyView::Empty,
        timeout: None,
    }
}

/// The legacy search for a query.
pub fn legacy_request(query: &str, limit: usize, page: u32) -> (result: Request)
    ensures
        result@ == legacy_request_view(query@, limit as nat, page as nat),
{
    let mut pairs = no_pairs();
    add_pair(&mut pairs, "format", "json");
    add_pair(&mut pairs, "p", text::number_text(page as u64).as_str());
    add_pair(&mut pairs, "n", text::number_text(limit as u64).as_str());
    add_pair(&mut pairs, "w", query);
    let mut headers = no_pairs();
    add_pair(&mut headers, "User-Agent", QQ_UA);
    add_pair(&mut headers, "Referer", "https://y.qq.com/");
    Request {
        method: Method::Get,
        url: "https://c.y.qq.com/soso/fcgi-bin/client_search_cp".to_owned(),
        query: pairs,
        headers,
        body: Body::Empty,
        timeout: None,
    }
}

// ---------------------------------------------------------------------------
// Search
// ---------------------------------------------------------------------------

/// The songs in a reply of the mobile search, none where it holds no list.
pub open spec fn mobile_songs_in(reply: JsonView) -> Seq<JsonView> {
    match as_list(
        child(
            child(
                child(child(Some(reply), "music.search.SearchCgiService.DoSearchForQQMusicMobile"@), "data"@),
                "body"@,
            ),
            "item_song"@,
        ),
    ) {
        Some(songs) => songs,
        None => Seq::empty(),
    }
}

/// The songs in a reply of the mobile search; nothing where there are none, so
/// that the legacy search has to be asked.
pub fn mobile_songs(reply: &Json) -> (result: Option<Vec<Json>>)
    ensures
        match result {
            Some(songs) => list_view(songs@) == mobile_songs_in(reply@) && songs@.len() > 0,
            None => mobile_songs_in(reply@).len() == 0,
        },
{
    let found = json::step(
        json::step(
            json::step(json::step(Some(reply), "music.search.SearchCgiService.DoSearchForQQMusicMobile"), "data"),
            "body",
        ),
        "item_song",
    );
    let songs = json::list_or_default(found);
    assert(list_view(songs@) =~= mobile_songs_in(reply@));
    if songs.len() == 0 {
        None
    } else {
        Some(songs)
    }
}

/// The flat album fields of a song of the legacy search, as an album.
pub open spec fn flat_album(song: JsonView) -> JsonView {
    JsonView::Record(
        seq![
            ("title"@, JsonView::Text(text_or_empty(field(song, "albumname"@)))),
            ("mid"@, JsonView::Text(text_or_empty(field(song, "albummid"@)))),
        ],
    )
}

/// A song of the legacy search in the shape of the mobile one: where it has no
/// album, its flat album fields become one.
pub open spec fn normalized(song: JsonView) -> JsonView {
    if field(song, "album"@) is Some {
        song
    } else {
        let album = flat_album(song);
        match song {
            JsonView::Null => JsonView::Record(seq![("album"@, album)]),
            other => with_field(other, "album"@, album),
        }
    }
}

/// A value that a field can be added to: a record, or nothing.
pub open spec fn takes_fields(song: JsonView) -> bool {
    song is Record || song is Null
}

/// Tells whether a field can be added to a value.
pub fn can_take_fields(song: &Json) -> (result: bool)
    ensures
        result == takes_fields(song@),
{
    match song {
        Json::Record(_) => true,
        Json::Null => true,
        _ => false,
    }
}

/// Brings a song of the legacy search into the shape of the mobile one.
pub fn normalize(song: Json) -> (result: Json)
    requires
        takes_fields(song@),
    ensures
        result@ == normalized(song@),
{
    if song.get("album").is_some() {
        return song;
    }
    let mut album = no_fields();
    put(&mut album, "title", text_value(json::text_or_default(song.get("albumname")).as_str()));
    put(&mut album, "mid", text_value(json::text_or_default(song.get("albummid")).as_str()));
    assert(fields_view(album@) =~= flat_album(song@)->Record_0);
    match song {
        Json::Null => {
            let mut fields = no_fields();
            put(&mut fields, "album", record(album));
            assert(fields_view(fields@) =~= normalized(song@)->Record_0);
            record(fields)
        },
        other => json::set_field(other, "album", record(album)),
    }
}

/// The songs in a reply of the legacy search, none where it holds no list.
pub open spec fn legacy_songs_in(reply: JsonView) -> Seq<JsonView> {
    match as_list(child(child(child(Some(reply), "data"@), "song"@), "list"@)) {
        Some(songs) => songs,
        None => Seq::empty(),
    }
}

/// The songs in a reply of the legacy search, as they came.
pub fn legacy_list(reply: &Json) -> (result: Vec<Json>)
    ensures
        list_view(result@) == legacy_songs_in(reply@),
{
    let songs = json::list_or_default(json::step(json::step(json::step(Some(reply), "data"), "song"), "list"));
    assert(list_view(songs@) =~= legacy_songs_in(reply@));
    songs
}

/// Songs of the legacy search in the shape of the mobile one.
pub fn legacy_songs(songs: Vec<Json>) -> (result: Vec<Json>)
    requires
        forall|i: int| 0 <= i < songs@.len() ==> takes_fields((#[trigger] songs@[i])@),
    ensures
        result@.len() == songs@.len(),
        forall|i: int| 0 <= i < songs@.len() ==> (#[trigger] result@[i])@ == normalized(songs@[i]@),
{
    let mut result: Vec<Json> = Vec::new();
    let mut i: usize = 0;
    while i < songs.len()
        invariant
            i <= songs@.len(),
            result@.len() == i,
            forall|j: int| 0 <= j < songs@.len() ==> takes_fields((#[trigger] songs@[j])@),
            forall|j: int| 0 <= j < i ==> (#[trigger] result@[j])@ == normalized(songs@[j]@),
        decreases songs.len() - i,
    {
        let song = normalize(songs[i].clone());
        result.push(song);
        i += 1;
    }
    result
}

/// After normalizing, every song of the legacy search has an album.
pub proof fn normalized_has_album(song: JsonView)
    requires
        takes_fields(song),
    ensures
        field(normalized(song), "album"@) is Some,
{
    if field(song, "album"@) is None {
        match song {
            JsonView::Record(fields) => {
                json::set_field_reads_back(fields, "album"@, flat_album(song), "album"@);
            },
            _ => {
                let fields = normalized(song)->Record_0;
                assert(fields.last().0 == "album"@);
            },
        }
    }
}

/// The songs of a reply are those of its list, all of them and in their order.
pub proof fn replies_give_their_songs(reply: JsonView, a: JsonView, b: JsonView, c: JsonView, songs: Seq<JsonView>)
    ensures
        child(Some(reply), "music.search.SearchCgiService.DoSearchForQQMusicMobile"@) == Some(a) && child(
            Some(a),
            "data"@,
        ) == Some(b) && child(Some(b), "body"@) == Some(c) && child(Some(c), "item_song"@) == Some(
            JsonView::List(songs),
        ) ==> mobile_songs_in(reply) == songs,
        child(Some(reply), "data"@) == Some(a) && child(Some(a), "song"@) == Some(b) && child(Some(b), "list"@) == Some(
            JsonView::List(songs),
        ) ==> legacy_songs_in(reply) == songs,
{
}

/// The album of a song of the legacy search has the title and the identifier
/// that the song gave flat; an album that is there is left alone.
pub proof fn flat_albums_are_kept(fields: Seq<(Seq<char>, JsonView)>, title: Seq<char>, mid: Seq<char>)
    requires
        field(JsonView::Record(fields), "albumname"@) == Some(JsonView::Text(title)),
        field(JsonView::Record(fields), "albummid"@) == Some(JsonView::Text(mid)),
    ensures
        field(JsonView::Record(fields), "album"@) is Some ==> normalized(JsonView::Record(fields)) == JsonView::Record(
            fields,
        ),
        field(JsonView::Record(fields), "album"@) is None ==> (field(normalized(JsonView::Record(fields)), "album"@)
            matches Some(album) && field(album, "title"@) == Some(JsonView::Text(title)) && field(album, "mid"@) == Some(
            JsonView::Text(mid),
        )),
{
    let song = JsonView::Record(fields);
    if field(song, "album"@) is None {
        let album = flat_album(song);
        json::set_field_reads_back(fields, "album"@, album, "album"@);
        let one = Seq::empty().push(("title"@, JsonView::Text(title)));
        assert(album->Record_0 =~= one.push(("mid"@, JsonView::Text(mid))));
        reveal_strlit("title");
        reveal_strlit("mid");
        assert("title"@.len() != "mid"@.len());
        json::last_value_counts(one, "mid"@, JsonView::Text(mid));
        json::other_fields_stay(one, "mid"@, JsonView::Text(mid), "title"@);
        json::last_value_counts(Seq::empty(), "title"@, JsonView::Text(title));
    }
}

/// A search asks for what the user typed, for so many songs and for the page
/// that is wanted, at both interfaces.
pub proof fn searches_ask_for_the_query(guid: Seq<char>, query: Seq<char>, limit: usize, page: u32)
    ensures
        field(search_param_view(guid, query, limit, page), "query"@) == Some(JsonView::Text(query)),
        field(search_param_view(guid, query, limit, page), "num_per_page"@) == Some(
            JsonView::Number(Number::Unsigned(limit as u64)),
        ),
        field(search_param_view(guid, query, limit, page), "page_num"@) == Some(
            JsonView::Number(Number::Unsigned(page as u64)),
        ),
        legacy_request_view(query, limit as nat, page as nat).query.contains(("w"@, query)),
        legacy_request_view(query, limit as nat, page as nat).query.contains(("n"@, decimal(limit as nat))),
        legacy_request_view(query, limit as nat, page as nat).query.contains(("p"@, decimal(page as nat))),
        legacy_request_view(query, limit as nat, page as nat).method == Method::Get,
{
    let fields = search_param_view(guid, query, limit, page)->Record_0;
    reveal_strlit("searchid");
    reveal_strlit("query");
    reveal_strlit("search_type");
    reveal_strlit("num_per_page");
    reveal_strlit("page_num");
    reveal_strlit("highlight");
    reveal_strlit("grp");
    assert("query"@[0] == 'q' && "num_per_page"@[0] == 'n' && "page_num"@[0] == 'p' && "highlight"@[0] == 'h');
    assert("grp"@[0] == 'g' && "search_type"@[0] == 's');
    json::field_stands_at(fields, "query"@, 1);
    json::field_stands_at(fields, "num_per_page"@, 3);
    json::field_stands_at(fields, "page_num"@, 4);
    let pairs = legacy_request_view(query, limit as nat, page as nat).query;
    assert(pairs[3] == ("w"@, query));
    assert(pairs[2] == ("n"@, decimal(limit as nat)));
    assert(pairs[1] == ("p"@, decimal(page as nat)));
}

/// The headers to fetch a stream of QQ Music with.
pub open spec fn qq_headers() -> JsonView {
    JsonView::Record(
        seq![("Referer"@, JsonView::Text("http://y.qq.com"@)), ("User-Agent"@, JsonView::Text(QQ_UA@))],
    )
}

/// What is sent along when a stream of QQ Music is fetched.
pub open spec fn qq_payload() -> JsonView {
    JsonView::Record(seq![("downloadHeaders"@, qq_headers())])
}

/// The track of a search card.
pub open spec fn track_of_song(song: QqSong) -> TrackView {
    TrackView {
        id: "qq:"@ + song.mid@,
        source: "QQMusicClient"@,
        title: song.title@,
        artist: joined(Seq::new(song.singer@.len(), |i: int| song.singer@[i].name@), " / "@),
        album: song.album.title@,
        artwork_url: "https://y.gtimg.cn/music/photo_new/T002R800x800M000"@ + song.album.mid@ + ".jpg"@,
        audio_url: Seq::empty(),
        duration_ms: (song.interval * 1000) as u64,
        format: card_quality(song).1,
        quality: card_quality(song).0,
        adapter_payload: Some(qq_payload()),
    }
}

/// The track of a search card.
pub fn track_from_song(song: &QqSong) -> (result: Track)
    requires
        song.interval * 1000 <= u64::MAX,
    ensures
        result@ == track_of_song(*song),
{
    let (quality, format) = qq_quality(song);
    let mut names: Vec<String> = Vec::new();
    let mut i: usize = 0;
    while i < song.singer.len()
        invariant
            i <= song.singer@.len(),
            names@.len() == i,
            forall|j: int| 0 <= j < i ==> (#[trigger] names@[j])@ == song.singer@[j].name@,
        decreases song.singer.len() - i,
    {
        names.push(song.singer[i].name.clone());
        i += 1;
    }
    assert(texts(names@) =~= Seq::new(song.singer@.len(), |i: int| song.singer@[i].name@));
    let mut headers = no_fields();
    put(&mut headers, "Referer", text_value("http://y.qq.com"));
    put(&mut headers, "User-Agent", text_value(QQ_UA));
    assert(fields_view(headers@) =~= qq_headers()->Record_0);
    let mut payload = no_fields();
    put(&mut payload, "downloadHeaders", record(headers));
    assert(fields_view(payload@) =~= qq_payload()->Record_0);
    let mut artwork = concat("https://y.gtimg.cn/music/photo_new/T002R800x800M000", song.album.mid.as_str());
    artwork.append(".jpg");
    Track {
        id: concat("qq:", song.mid.as_str()),
        source: "QQMusicClient".to_owned(),
        title: song.title.clone(),
        artist: text::join(&names, " / "),
        album: song.album.title.clone(),
        artwork_url: artwork,
        audio_url: String::new(),
        duration_ms: song.interval * 1000,
        format,
        quality,
        adapter_payload: Some(record(payload)),
    }
}

/// A card becomes the track of its song: title, album and length are the song's,
/// the identifier leads back to it, and it is a track of QQ Music that has no
/// address yet.
pub proof fn cards_become_their_songs(song: QqSong, message: Seq<char>)
    requires
        song.interval * 1000 <= u64::MAX,
    ensures
        track_of_song(song).title == song.title@,
        track_of_song(song).album == song.album.title@,
        track_of_song(song).duration_ms == song.interval * 1000,
        track_of_song(song).audio_url.len() == 0,
        track_of_song(song).source == sources::source_id(sources::Source::Qq),
        song_of(track_of_song(song), "qq:"@, message) == Ok::<Seq<char>, Seq<char>>(song.mid@),
        lookup_of(track_of_song(song), "qq:"@, message) == sources::LookupView::Song(song.mid@),
        text::contains_text(track_of_song(song).artwork_url, song.album.mid@),
        begins(track_of_song(song).artwork_url, "https://"@),
        song.singer@.len() == 1 ==> track_of_song(song).artist == song.singer@[0].name@,
        song.singer@.len() == 2 ==> track_of_song(song).artist == song.singer@[0].name@ + " / "@ + song.singer@[1].name@,
        song.singer@.len() == 0 ==> track_of_song(song).artist.len() == 0,
{
    let track = track_of_song(song);
    sources::songs_are_looked_up_by_their_identifier(track, "qq:"@, song.mid@, message);
    let lead = "https://y.gtimg.cn/music/photo_new/T002R800x800M000"@;
    text::parts_are_found(lead, song.album.mid@, ".jpg"@);
    reveal_strlit("https://y.gtimg.cn/music/photo_new/T002R800x800M000");
    reveal_strlit("https://");
    assert(track.artwork_url.subrange(0, 8) =~= "https://"@);
    let names = Seq::new(song.singer@.len(), |i: int| song.singer@[i].name@);
    reveal_with_fuel(joined, 3);
    if names.len() == 2 {
        assert(names.drop_last() =~= seq![names[0]]);
        assert(joined(names.drop_last(), " / "@) == names[0]);
    }
}

/// The quality on a card is the best that can be played: lossless wherever
/// there is a lossless file, then by falling rate; a file that is never
/// resolved, Dolby or Hi-Res, counts for nothing.
pub proof fn cards_show_their_best_file(song: QqSong)
    ensures
        ({
            let file = song.file;
            let lossless = file.size_flac > 0 || file.size_ape > 0 || song.sizeflac > 0 || song.sizeape > 0;
            let high = file.size_320mp3 > 0 || song.size320 > 0 || song.sizeogg > 0;
            let middle = file.size_192aac > 0 || file.size_192ogg > 0;
            let plain = file.size_128mp3 > 0 || song.size128 > 0;
            let low = file.size_96aac > 0 || file.size_96ogg > 0;
            let quality = track_of_song(song).quality;
            let format = track_of_song(song).format;
            &&& lossless <==> quality == Some("无损"@)
            &&& lossless <==> format == Some("FLAC"@)
            &&& !lossless && high ==> quality == Some("320K"@)
            &&& !lossless && !high && middle ==> quality == Some("192K"@)
            &&& !lossless && !high && !middle && plain ==> quality == Some("128K"@)
            &&& !lossless && !high && !middle && !plain && low ==> quality == Some("96K"@)
            &&& !lossless && (high || middle || plain || low) ==> format == Some("MP3"@)
            &&& !lossless && !high && !middle && !plain && !low && file.size_24aac > 0 ==> quality == Some("48K"@)
                && format == Some("AAC"@)
            &&& quality is None <==> !lossless && !high && !middle && !plain && !low && file.size_24aac == 0
            &&& quality is None <==> format is None
        }),
{
    reveal_strlit("无损");
    reveal_strlit("320K");
    reveal_strlit("192K");
    reveal_strlit("128K");
    reveal_strlit("96K");
    reveal_strlit("48K");
    reveal_strlit("FLAC");
    reveal_strlit("MP3");
    reveal_strlit("AAC");
    assert("无损"@[0] == '无' && "320K"@[0] == '3' && "192K"@[0] == '1' && "128K"@[0] == '1' && "96K"@[0] == '9');
    assert("48K"@[0] == '4' && "FLAC"@[0] == 'F' && "MP3"@[0] == 'M' && "AAC"@[0] == 'A');
}

/// A search shows the songs of the cards that can be read, in their order, as
/// long as there is room; a card that cannot be read takes no room.
pub proof fn searches_show_every_card(cards: Seq<Option<QqSong>>, song: QqSong, limit: nat)
    ensures
        tracks_of_songs(cards.push(None), limit) == tracks_of_songs(cards, limit),
        tracks_of_songs(cards, limit).len() < limit ==> tracks_of_songs(cards.push(Some(song)), limit)
            == tracks_of_songs(cards, limit).push(track_of_song(song)),
        tracks_of_songs(cards, limit).len() == limit ==> tracks_of_songs(cards.push(Some(song)), limit)
            == tracks_of_songs(cards, limit),
        tracks_of_songs(Seq::empty(), limit).len() == 0,
{
    assert(cards.push(None).drop_last() =~= cards);
    assert(cards.push(Some(song)).drop_last() =~= cards);
}

/// Where every card can be read and there is room for all, the tracks are those
/// of the cards, one for one.
pub proof fn readable_cards_are_all_shown(cards: Seq<Option<QqSong>>, limit: nat)
    requires
        cards.len() <= limit,
        forall|i: int| 0 <= i < cards.len() ==> (#[trigger] cards[i]) is Some,
    ensures
        tracks_of_songs(cards, limit).len() == cards.len(),
        forall|i: int|
            0 <= i < cards.len() ==> #[trigger] tracks_of_songs(cards, limit)[i] == track_of_song(cards[i]->0),
    decreases cards.len(),
{
    if cards.len() > 0 {
        let rest = cards.drop_last();
        assert forall|i: int| 0 <= i < rest.len() implies (#[trigger] rest[i]) is Some by {
            assert(rest[i] == cards[i]);
        }
        readable_cards_are_all_shown(rest, limit);
        assert(cards[cards.len() - 1] is Some);
        assert forall|i: int| 0 <= i < cards.len() implies #[trigger] tracks_of_songs(cards, limit)[i]
            == track_of_song(cards[i]->0) by {
            if i < rest.len() {
                assert(tracks_of_songs(rest, limit)[i] == track_of_song(rest[i]->0));
            }
        }
    }
}

/// The tracks of the cards that could be read, at most `limit` of them.
pub open spec fn tracks_of_songs(cards: Seq<Option<QqSong>>, limit: nat) -> Seq<TrackView>
    decreases cards.len(),
{
    if cards.len() == 0 {
        Seq::empty()
    } else {
        let before = tracks_of_songs(cards.drop_last(), limit);
        match cards.last() {
            Some(song) if before.len() < limit => before.push(track_of_song(song)),
            _ => before,
        }
    }
}

/// A search never gives more tracks than it was asked for.
pub proof fn searches_keep_to_the_limit(cards: Seq<Option<QqSong>>, limit: nat)
    ensures
        tracks_of_songs(cards, limit).len() <= limit,
    decreases cards.len(),
{
    if cards.len() > 0 {
        searches_keep_to_the_limit(cards.drop_last(), limit);
    }
}

/// The tracks of the cards that could be read, at most `limit` of them.
pub fn tracks_from_songs(cards: &Vec<Option<QqSong>>, limit: usize) -> (result: Vec<Track>)
    requires
        forall|i: int|
            0 <= i < cards@.len() && tracks_of_songs(cards@.take(i), limit as nat).len() < limit ==> ((
            #[trigger] cards@[i]) matches Some(song) ==> song.interval * 1000 <= u64::MAX),
    ensures
        tracks_view(result@) == tracks_of_songs(cards@, limit as nat),
{
    let mut tracks: Vec<Track> = Vec::new();
    let mut i: usize = 0;
    assert(cards@.take(0).len() == 0);
    assert(tracks_view(tracks@) =~= Seq::<TrackView>::empty());
    while i < cards.len()
        invariant
            i <= cards@.len(),
            forall|j: int|
                0 <= j < cards@.len() && tracks_of_songs(cards@.take(j), limit as nat).len() < limit ==> ((
                #[trigger] cards@[j]) matches Some(song) ==> song.interval * 1000 <= u64::MAX),
            tracks_view(tracks@) == tracks_of_songs(cards@.take(i as int), limit as nat),
        decreases cards.len() - i,
    {
        assert(cards@.take(i + 1).drop_last() =~= cards@.take(i as int));
        assert(cards@.take(i + 1).last() == cards@[i as int]);
        assert(tracks_view(tracks@).len() == tracks@.len());
        let ghost before = tracks@;
        match &cards[i] {
            Some(song) => {
                assert(cards@[i as int] == Some(*song));
                if tracks.len() < limit {
                    let track = track_from_song(song);
                    tracks.push(track);
                    assert(tracks_view(tracks@) =~= tracks_view(before).push(track@));
                }
            },
            None => {},
        }
        i += 1;
    }
    assert(cards@.take(i as int) =~= cards@);
    tracks
}

// ---------------------------------------------------------------------------
// Looking up a stream
// ---------------------------------------------------------------------------

/// A stream that was found; all empty where none was.
#[derive(Debug, Clone)]
pub struct QqStream {
    pub url: String,
    pub quality: String,
    pub extension: String,
}

/// The mathematical value of a [`QqStream`].
#[verifier::ext_equal]
pub struct StreamView {
    pub url: Seq<char>,
    pub quality: Seq<char>,
    pub extension: Seq<char>,
}

impl View for QqStream {
    type V = StreamView;

    open spec fn view(&self) -> StreamView {
        StreamView { url: self.url@, quality: self.quality@, extension: self.extension@ }
    }
}

/// No stream.
pub open spec fn no_stream() -> StreamView {
    StreamView { url: Seq::empty(), quality: Seq::empty(), extension: Seq::empty() }
}

/// A kind of file of a song: the prefix of its name, its extension, and the
/// label of its quality.
#[derive(Debug, Clone, Copy)]
pub struct FileType {
    pub prefix: &'static str,
    pub extension: &'static str,
    pub quality: &'static str,
}

/// The number of kinds of files.
pub const FILE_TYPES: usize = 13;

/// The kinds of files, in the order in which they are asked for.
pub open spec fn file_types() -> Seq<(Seq<char>, Seq<char>, Seq<char>)> {
    seq![
        ("AI00"@, ".flac"@, "臻品母带"@),
        ("Q000"@, ".flac"@, "全景声 2.0"@),
        ("Q001"@, ".flac"@, "全景声 5.1"@),
        ("F000"@, ".flac"@, "无损"@),
        ("O801"@, ".ogg"@, "OGG 640K"@),
        ("O800"@, ".ogg"@, "OGG 320K"@),
        ("O600"@, ".ogg"@, "OGG 192K"@),
        ("O400"@, ".ogg"@, "OGG 96K"@),
        ("M800"@, ".mp3"@, "MP3 320K"@),
        ("M500"@, ".mp3"@, "MP3 128K"@),
        ("C600"@, ".m4a"@, "AAC 192K"@),
        ("C400"@, ".m4a"@, "AAC 96K"@),
        ("C200"@, ".m4a"@, "AAC 48K"@),
    ]
}

fn file_kind(prefix: &'static str, extension: &'static str, quality: &'static str) -> (result: FileType)
    ensures
        result.prefix@ == prefix@,
        result.extension@ == extension@,
        result.quality@ == quality@,
{
    FileType { prefix, extension, quality }
}

/// A kind of file.
pub fn file_type(index: usize) -> (result: FileType)
    requires
        index < FILE_TYPES,
    ensures
        (result.prefix@, result.extension@, result.quality@) == file_types()[index as int],
{
    match index {
        0 => file_kind("AI00", ".flac", "臻品母带"),
        1 => file_kind("Q000", ".flac", "全景声 2.0"),
        2 => file_kind("Q001", ".flac", "全景声 5.1"),
        3 => file_kind("F000", ".flac", "无损"),
        4 => file_kind("O801", ".ogg", "OGG 640K"),
        5 => file_kind("O800", ".ogg", "OGG 320K"),
        6 => file_kind("O600", ".ogg", "OGG 192K"),
        7 => file_kind("O400", ".ogg", "OGG 96K"),
        8 => file_kind("M800", ".mp3", "MP3 320K"),
        9 => file_kind("M500", ".mp3", "MP3 128K"),
        10 => file_kind("C600", ".m4a", "AAC 192K"),
        11 => file_kind("C400", ".m4a", "AAC 96K"),
        _ => file_kind("C200", ".m4a", "AAC 48K"),
    }
}

/// The name of a file of a song.
pub open spec fn file_name(index: int, song_mid: Seq<char>) -> Seq<char> {
    file_types()[index].0 + song_mid + song_mid + file_types()[index].1
}

/// The parameters of the request for the address of a file.
pub open spec fn vkey_param_view(filename: Seq<char>, guid: Seq<char>, song_mid: Seq<char>) -> JsonView {
    JsonView::Record(
        seq![
            ("filename"@, JsonView::List(seq![JsonView::Text(filename)])),
            ("guid"@, JsonView::Text(guid)),
            ("songmid"@, JsonView::List(seq![JsonView::Text(song_mid)])),
            ("songtype"@, JsonView::List(seq![JsonView::Number(Number::Unsigned(0))])),
        ],
    )
}

/// The request for the address of a file of a song.
pub open spec fn vkey_request_view(index: int, song_mid: Seq<char>, guid: Seq<char>) -> RequestView {
    api_request_view(
        payload_view(
            "music.vkey.GetVkey.UrlGetVkey"@,
            call_view(
                "music.vkey.GetVkey"@,
                "UrlGetVkey"@,
                vkey_param_view(file_name(index, song_mid), guid, song_mid),
            ),
        ),
    )
}

/// The request for the address of a file of a song.
pub fn vkey_request(index: usize, song_mid: &str, guid: &str) -> (result: Request)
    requires
        index < FILE_TYPES,
    ensures
        result@ == vkey_request_view(index as int, song_mid@, guid@),
{
    let kind = file_type(index);
    let mut filename = concat(kind.prefix, song_mid);
    filename.append(song_mid);
    filename.append(kind.extension);
    assert(filename@ == file_name(index as int, song_mid@));
    let mut param = no_fields();
    put(&mut param, "filename", json::single(text_value(filename.as_str())));
    put(&mut param, "guid", text_value(guid));
    put(&mut param, "songmid", json::single(text_value(song_mid)));
    put(&mut param, "songtype", json::single(json::number_value(0)));
    assert(fields_view(param@) =~= vkey_param_view(filename@, guid@, song_mid@)->Record_0);
    api_request(payload("music.vkey.GetVkey.UrlGetVkey", "music.vkey.GetVkey", "UrlGetVkey", record(param)))
}

/// The answer for the first file of a reply.
pub open spec fn vkey_entry(reply: JsonView) -> Option<JsonView> {
    child(
        child(child(child(Some(reply), "music.vkey.GetVkey.UrlGetVkey"@), "data"@), "midurlinfo"@),
        "0"@,
    )
}

/// The address of a file in a reply: a full address as it is, any other below
/// the stream server. There is none where the reply is missing, or names none.
pub open spec fn vkey_address(reply: Option<JsonView>) -> Option<Seq<char>> {
    match reply {
        Some(reply) => {
            let purl = text_or_empty(
                either(child(vkey_entry(reply), "purl"@), child(vkey_entry(reply), "wifiurl"@)),
            );
            if purl.len() == 0 {
                None
            } else if begins(purl, "http"@) {
                Some(purl)
            } else {
                Some(QQ_STREAM@ + purl)
            }
        },
        None => None,
    }
}

/// The address of a file in a reply.
pub fn address_in(reply: Option<&Json>) -> (result: Option<String>)
    ensures
        opt(result) == vkey_address(opt_ref(reply)),
{
    match reply {
        Some(reply) => {
            let entry = json::step(
                json::step(json::step(json::step(Some(reply), "music.vkey.GetVkey.UrlGetVkey"), "data"), "midurlinfo"),
                "0",
            );
            let purl = json::text_or_default(json::first_of(json::step(entry, "purl"), json::step(entry, "wifiurl")));
            if purl.as_str().is_empty() {
                None
            } else if text::starts_with(purl.as_str(), "http") {
                Some(purl)
            } else {
                Some(concat(QQ_STREAM, purl.as_str()))
            }
        },
        None => None,
    }
}

/// What the search for a stream does next.
#[derive(Debug)]
pub enum StreamAction {
    /// Ask for the address of this kind of file.
    AskFile(usize),
    /// Ask the tang resolver.
    AskTang,
    /// Stop, with the stream that was found.
    Finish(QqStream),
}

/// The mathematical value of a [`StreamAction`].
#[verifier::ext_equal]
pub enum StreamActionView {
    AskFile(usize),
    AskTang,
    Finish(StreamView),
}

impl View for StreamAction {
    type V = StreamActionView;

    open spec fn view(&self) -> StreamActionView {
        match *self {
            StreamAction::AskFile(index) => StreamActionView::AskFile(index),
            StreamAction::AskTang => StreamActionView::AskTang,
            StreamAction::Finish(stream) => StreamActionView::Finish(stream@),
        }
    }
}

/// The stream of a kind of file at an address.
pub open spec fn file_stream(index: int, url: Seq<char>) -> StreamView {
    StreamView { url, quality: file_types()[index].2, extension: stripped_start(file_types()[index].1, "."@) }
}

/// What follows the reply for a kind of file: its stream where it has an
/// address, else the next kind, and after the last the tang resolver.
pub open spec fn after_file(index: int, reply: Option<JsonView>) -> StreamActionView {
    match vkey_address(reply) {
        Some(url) => StreamActionView::Finish(file_stream(index, url)),
        None => if index + 1 < FILE_TYPES {
            StreamActionView::AskFile((index + 1) as usize)
        } else {
            StreamActionView::AskTang
        },
    }
}

/// Begins the search for a stream.
pub fn stream_start() -> (result: StreamAction)
    ensures
        result@ == StreamActionView::AskFile(0),
{
    StreamAction::AskFile(0)
}

/// Decides what follows the reply for a kind of file; `None` where there was no
/// reply.
pub fn stream_reply(index: usize, reply: Option<&Json>) -> (result: StreamAction)
    requires
        index < FILE_TYPES,
    ensures
        result@ == after_file(index as int, opt_ref(reply)),
{
    match address_in(reply) {
        Some(url) => {
            let kind = file_type(index);
            StreamAction::Finish(
                QqStream {
                    url,
                    quality: kind.quality.to_owned(),
                    extension: text::strip_start(kind.extension, ".").to_owned(),
                },
            )
        },
        None => if index + 1 < FILE_TYPES {
            StreamAction::AskFile(index + 1)
        } else {
            StreamAction::AskTang
        },
    }
}

/// The stream that the search finds from a kind of file on, where `replies` are
/// what would be replied for each kind and `tang` is what the tang resolver
/// would find.
pub open spec fn search_from(index: int, replies: Seq<Option<JsonView>>, tang: StreamView) -> StreamView
    decreases FILE_TYPES - index,
{
    if index < 0 || index >= FILE_TYPES {
        tang
    } else {
        match after_file(index, replies[index]) {
            StreamActionView::Finish(stream) => stream,
            _ => search_from(index + 1, replies, tang),
        }
    }
}

proof fn lemma_search_from(index: int, replies: Seq<Option<JsonView>>, tang: StreamView, winner: int)
    requires
        0 <= index <= winner <= FILE_TYPES,
        forall|i: int| index <= i < winner ==> vkey_address(#[trigger] replies[i]) is None,
        winner < FILE_TYPES ==> vkey_address(replies[winner]) is Some,
    ensures
        search_from(index, replies, tang) == (if winner < FILE_TYPES {
            file_stream(winner, vkey_address(replies[winner])->0)
        } else {
            tang
        }),
    decreases winner - index,
{
    if index < winner {
        assert(vkey_address(replies[index]) is None);
        lemma_search_from(index + 1, replies, tang, winner);
    }
}

/// The search returns the stream of the first kind of file that has an
/// address, so a lossless one before a lossy one; the tang resolver counts
/// only where no kind has one.
pub proof fn first_file_wins(replies: Seq<Option<JsonView>>, tang: StreamView, winner: int)
    requires
        0 <= winner <= FILE_TYPES,
        forall|i: int| 0 <= i < winner ==> vkey_address(#[trigger] replies[i]) is None,
        winner < FILE_TYPES ==> vkey_address(replies[winner]) is Some,
    ensures
        search_from(0, replies, tang) == (if winner < FILE_TYPES {
            file_stream(winner, vkey_address(replies[winner])->0)
        } else {
            tang
        }),
{
    lemma_search_from(0, replies, tang, winner);
}

/// The kinds of files come best first: those that lose nothing before those that
/// do, and of one container the higher rate first. Each names its file by its
/// own prefix and by the song.
pub proof fn lossless_files_come_first(index: int, other: int, url: Seq<char>, song_mid: Seq<char>)
    requires
        0 <= index < FILE_TYPES,
        0 <= other < FILE_TYPES,
    ensures
        file_stream(index, url).url == url,
        file_stream(index, url).quality == file_types()[index].2,
        file_stream(index, url).extension == "flac"@ <==> index < 4,
        index < 4 <= other ==> file_stream(index, url).extension == "flac"@ && file_stream(other, url).extension
            != "flac"@,
        file_stream(3, url).quality == "无损"@ && file_name(3, song_mid) == "F000"@ + song_mid + song_mid + ".flac"@,
        file_stream(8, url).quality == "MP3 320K"@ && file_name(8, song_mid) == "M800"@ + song_mid + song_mid + ".mp3"@,
        file_stream(9, url).quality == "MP3 128K"@ && file_name(9, song_mid) == "M500"@ + song_mid + song_mid + ".mp3"@,
        file_name(index, song_mid) == file_types()[index].0 + song_mid + song_mid + "."@ + file_stream(
            index,
            url,
        ).extension,
{
    reveal_strlit(".");
    reveal_strlit(".flac");
    reveal_strlit(".ogg");
    reveal_strlit(".mp3");
    reveal_strlit(".m4a");
    reveal_strlit("flac");
    reveal_strlit("ogg");
    reveal_strlit("mp3");
    reveal_strlit("m4a");
    assert(".flac"@ =~= "."@ + "flac"@);
    assert(".ogg"@ =~= "."@ + "ogg"@);
    assert(".mp3"@ =~= "."@ + "mp3"@);
    assert(".m4a"@ =~= "."@ + "m4a"@);
    assert(!begins("flac"@, "."@)) by {
        assert("flac"@.subrange(0, 1)[0] != "."@[0]);
    }
    assert(!begins("ogg"@, "."@)) by {
        assert("ogg"@.subrange(0, 1)[0] != "."@[0]);
    }
    assert(!begins("mp3"@, "."@)) by {
        assert("mp3"@.subrange(0, 1)[0] != "."@[0]);
    }
    assert(!begins("m4a"@, "."@)) by {
        assert("m4a"@.subrange(0, 1)[0] != "."@[0]);
    }
    text::marks_are_stripped("."@, "flac"@);
    text::marks_are_stripped("."@, "ogg"@);
    text::marks_are_stripped("."@, "mp3"@);
    text::marks_are_stripped("."@, "m4a"@);
    assert("flac"@[0] == 'f' && "ogg"@[0] == 'o' && "mp3"@[0] == 'm' && "m4a"@[0] == 'm');
    let kind = file_types()[index];
    let extension = file_stream(index, url).extension;
    assert(kind.1 =~= "."@ + extension);
    assert(file_name(index, song_mid) =~= kind.0 + song_mid + song_mid + "."@ + extension);
}

/// What is asked for by a prefix is shown under the label that belongs to it.
pub proof fn files_have_their_labels(index: int, url: Seq<char>)
    requires
        0 <= index < FILE_TYPES,
    ensures
        ({
            let prefix = file_types()[index].0;
            let label = file_stream(index, url).quality;
            let extension = file_types()[index].1;
            &&& prefix == "AI00"@ ==> label == "臻品母带"@ && extension == ".flac"@
            &&& prefix == "Q000"@ ==> label == "全景声 2.0"@ && extension == ".flac"@
            &&& prefix == "Q001"@ ==> label == "全景声 5.1"@ && extension == ".flac"@
            &&& prefix == "F000"@ ==> label == "无损"@ && extension == ".flac"@
            &&& prefix == "O801"@ ==> label == "OGG 640K"@ && extension == ".ogg"@
            &&& prefix == "O800"@ ==> label == "OGG 320K"@ && extension == ".ogg"@
            &&& prefix == "O600"@ ==> label == "OGG 192K"@ && extension == ".ogg"@
            &&& prefix == "O400"@ ==> label == "OGG 96K"@ && extension == ".ogg"@
            &&& prefix == "M800"@ ==> label == "MP3 320K"@ && extension == ".mp3"@
            &&& prefix == "M500"@ ==> label == "MP3 128K"@ && extension == ".mp3"@
            &&& prefix == "C600"@ ==> label == "AAC 192K"@ && extension == ".m4a"@
            &&& prefix == "C400"@ ==> label == "AAC 96K"@ && extension == ".m4a"@
            &&& prefix == "C200"@ ==> label == "AAC 48K"@ && extension == ".m4a"@
            &&& prefix == "AI00"@ || prefix == "Q000"@ || prefix == "Q001"@ || prefix == "F000"@ || prefix == "O801"@
                || prefix == "O800"@ || prefix == "O600"@ || prefix == "O400"@ || prefix == "M800"@ || prefix == "M500"@
                || prefix == "C600"@ || prefix == "C400"@ || prefix == "C200"@
        }),
        forall|i: int, j: int|
            0 <= i < j < FILE_TYPES ==> (#[trigger] file_types()[i]).0 != (#[trigger] file_types()[j]).0,
{
    reveal_strlit("AI00");
    reveal_strlit("Q000");
    reveal_strlit("Q001");
    reveal_strlit("F000");
    reveal_strlit("O801");
    reveal_strlit("O800");
    reveal_strlit("O600");
    reveal_strlit("O400");
    reveal_strlit("M800");
    reveal_strlit("M500");
    reveal_strlit("C600");
    reveal_strlit("C400");
    reveal_strlit("C200");
    assert("AI00"@[0] == 'A' && "F000"@[0] == 'F');
    assert("Q000"@[0] == 'Q' && "Q000"@[3] == '0' && "Q001"@[0] == 'Q' && "Q001"@[3] == '1');
    assert("O801"@[0] == 'O' && "O801"@[1] == '8' && "O801"@[3] == '1' && "O800"@[1] == '8' && "O800"@[3] == '0');
    assert("O800"@[0] == 'O' && "O600"@[0] == 'O' && "O600"@[1] == '6' && "O400"@[0] == 'O' && "O400"@[1] == '4');
    assert("M800"@[0] == 'M' && "M800"@[1] == '8' && "M500"@[0] == 'M' && "M500"@[1] == '5');
    assert("C600"@[0] == 'C' && "C600"@[1] == '6' && "C400"@[0] == 'C' && "C400"@[1] == '4' && "C200"@[0] == 'C');
    assert("C200"@[1] == '2');
}

/// The address in a reply: a full one as it is, any other below the stream
/// server, the first of the two fields preferred; nothing where it is empty.
pub proof fn addresses_in_replies(reply: JsonView, entry: JsonView, url: Seq<char>)
    requires
        vkey_entry(reply) == Some(entry),
    ensures
        child(Some(entry), "purl"@) == Some(JsonView::Text(url)) && begins(url, "http"@) ==> vkey_address(Some(reply))
            == Some(url),
        child(Some(entry), "purl"@) == Some(JsonView::Text(url)) && url.len() > 0 && !begins(url, "http"@)
            ==> vkey_address(Some(reply)) == Some(QQ_STREAM@ + url),
        child(Some(entry), "purl"@) == Some(JsonView::Text(url)) && url.len() == 0 ==> vkey_address(Some(reply)) is None,
        child(Some(entry), "purl"@) is None && child(Some(entry), "wifiurl"@) == Some(JsonView::Text(url)) && begins(
            url,
            "http"@,
        ) ==> vkey_address(Some(reply)) == Some(url),
        child(Some(entry), "purl"@) is None && child(Some(entry), "wifiurl"@) is None ==> vkey_address(Some(reply))
            is None,
        vkey_address(None) is None,
{
    reveal_strlit("http");
}

/// The address of a file is asked for by the parameters that name the file,
/// under the name that the reply is read by.
pub proof fn addresses_are_asked_for_by_file(index: int, song_mid: Seq<char>, guid: Seq<char>)
    ensures
        vkey_request_view(index, song_mid, guid).body matches BodyView::Json(payload) && child(
            child(Some(payload), "music.vkey.GetVkey.UrlGetVkey"@),
            "param"@,
        ) == Some(vkey_param_view(file_name(index, song_mid), guid, song_mid)),
        vkey_request_view(index, song_mid, guid).method == Method::Post,
{
    let name = "music.vkey.GetVkey.UrlGetVkey"@;
    let call = call_view(
        "music.vkey.GetVkey"@,
        "UrlGetVkey"@,
        vkey_param_view(file_name(index, song_mid), guid, song_mid),
    );
    json::field_stands_at(payload_view(name, call)->Record_0, name, 1);
    json::field_stands_at(call->Record_0, "param"@, 2);
}

/// The first entry of a reply is the one for the file that was asked for.
pub proof fn first_entry_is_read(reply: JsonView, a: JsonView, b: JsonView, entries: Seq<JsonView>)
    requires
        entries.len() > 0,
        child(Some(reply), "music.vkey.GetVkey.UrlGetVkey"@) == Some(a),
        child(Some(a), "data"@) == Some(b),
        child(Some(b), "midurlinfo"@) == Some(JsonView::List(entries)),
    ensures
        vkey_entry(reply) == Some(entries[0]),
{
    json::paths_are_followed(Seq::empty(), entries, Seq::empty(), 0);
    reveal_strlit("0");
    assert("0"@ =~= decimal(0));
}

/// A call carries its parameters under its own name, and goes to the interface
/// with the name of the program and where it comes from.
pub proof fn calls_carry_their_parameters(guid: Seq<char>, query: Seq<char>, limit: usize, page: u32, payload: JsonView)
    ensures
        child(
            child(
                Some(search_payload_view(guid, query, limit, page)),
                "music.search.SearchCgiService.DoSearchForQQMusicMobile"@,
            ),
            "param"@,
        ) == Some(search_param_view(guid, query, limit, page)),
        api_request_view(payload).body == BodyView::Json(payload),
        api_request_view(payload).method == Method::Post,
        api_request_view(payload).headers.contains(("Referer"@, "https://y.qq.com/"@)),
        api_request_view(payload).headers.contains(("User-Agent"@, QQ_UA@)),
{
    let name = "music.search.SearchCgiService.DoSearchForQQMusicMobile"@;
    let call = call_view(
        "music.search.SearchCgiService"@,
        "DoSearchForQQMusicMobile"@,
        search_param_view(guid, query, limit, page),
    );
    json::field_stands_at(search_payload_view(guid, query, limit, page)->Record_0, name, 1);
    json::field_stands_at(call->Record_0, "param"@, 2);
    assert(api_request_view(payload).headers[1] == ("Referer"@, "https://y.qq.com/"@));
    assert(api_request_view(payload).headers[0] == ("User-Agent"@, QQ_UA@));
}

/// The file of a song is asked for by its name and by the identifier of the
/// song.
pub proof fn files_are_asked_for_by_name(index: int, song_mid: Seq<char>, guid: Seq<char>)
    ensures
        field(vkey_param_view(file_name(index, song_mid), guid, song_mid), "filename"@) == Some(
            JsonView::List(seq![JsonView::Text(file_name(index, song_mid))]),
        ),
        field(vkey_param_view(file_name(index, song_mid), guid, song_mid), "songmid"@) == Some(
            JsonView::List(seq![JsonView::Text(song_mid)]),
        ),
        tang_request_view(song_mid).query.contains(("mid"@, song_mid)),
        lyrics_request_view(song_mid).query.contains(("songmid"@, song_mid)),
{
    let fields = vkey_param_view(file_name(index, song_mid), guid, song_mid)->Record_0;
    reveal_strlit("filename");
    reveal_strlit("guid");
    reveal_strlit("songmid");
    reveal_strlit("songtype");
    assert("filename"@[0] == 'f' && "guid"@[0] == 'g' && "songmid"@.len() != "songtype"@.len());
    json::field_stands_at(fields, "filename"@, 0);
    json::field_stands_at(fields, "songmid"@, 2);
    assert(tang_request_view(song_mid).query[0] == ("mid"@, song_mid));
    assert(lyrics_request_view(song_mid).query[0] == ("songmid"@, song_mid));
}

/// The request to the tang resolver.
pub open spec fn tang_request_view(song_mid: Seq<char>) -> RequestView {
    RequestView {
        method: Method::Get,
        url: "https://tang.api.s01s.cn/music_open_api.php"@,
        query: seq![("mid"@, song_mid)],
        headers: seq![("User-Agent"@, QQ_UA@)],
        body: BodyView::Empty,
        timeout: None,
    }
}

/// The request to the tang resolver.
pub fn tang_request(song_mid: &str) -> (result: Request)
    ensures
        result@ == tang_request_view(song_mid@),
{
    let mut query = no_pairs();
    add_pair(&mut query, "mid", song_mid);
    let mut headers = no_pairs();
    add_pair(&mut headers, "User-Agent", QQ_UA);
    Request {
        method: Method::Get,
        url: "https://tang.api.s01s.cn/music_open_api.php".to_owned(),
        query,
        headers,
        body: Body::Empty,
        timeout: None,
    }
}

/// The number of tiers of the tang resolver.
pub const TANG_TIERS: usize = 7;

/// The fields of a reply of the tang resolver with the labels of their
/// qualities, best first.
pub open spec fn tang_tiers() -> Seq<(Seq<char>, Seq<char>)> {
    seq![
        ("song_play_url_sq"@, "无损"@),
        ("song_play_url_pq"@, "高品质"@),
        ("song_play_url_accom"@, "伴奏"@),
        ("song_play_url_hq"@, "320K"@),
        ("song_play_url"@, "128K"@),
        ("song_play_url_standard"@, "128K"@),
        ("song_play_url_fq"@, "低品质"@),
    ]
}

/// A tier of the tang resolver.
fn tang_tier(index: usize) -> (result: (&'static str, &'static str))
    requires
        index < TANG_TIERS,
    ensures
        (result.0@, result.1@) == tang_tiers()[index as int],
{
    match index {
        0 => ("song_play_url_sq", "无损"),
        1 => ("song_play_url_pq", "高品质"),
        2 => ("song_play_url_accom", "伴奏"),
        3 => ("song_play_url_hq", "320K"),
        4 => ("song_play_url", "128K"),
        5 => ("song_play_url_standard", "128K"),
        _ => ("song_play_url_fq", "低品质"),
    }
}

/// The address of the web that a tier has in a reply.
pub open spec fn tang_address(reply: JsonView, index: int) -> Option<Seq<char>> {
    match as_text(field(reply, tang_tiers()[index].0)) {
        Some(url) if begins(url, "http"@) => Some(url),
        _ => None,
    }
}

/// The stream of the first tier, from one on, that has an address.
pub open spec fn tang_from(reply: JsonView, index: int) -> StreamView
    decreases TANG_TIERS - index,
{
    if index < 0 || index >= TANG_TIERS {
        no_stream()
    } else {
        match tang_address(reply, index) {
            Some(url) => StreamView {
                url,
                quality: tang_tiers()[index].1,
                extension: short_extension(url, "m4a"@),
            },
            None => tang_from(reply, index + 1),
        }
    }
}

/// The stream in a reply of the tang resolver: that of the best tier that has
/// an address of the web; none where there is no reply.
pub open spec fn tang_stream(reply: Option<JsonView>) -> StreamView {
    match reply {
        Some(reply) => tang_from(reply, 0),
        None => no_stream(),
    }
}

/// The stream in a reply of the tang resolver.
pub fn resolve_tang(reply: Option<&Json>) -> (result: QqStream)
    ensures
        result@ == tang_stream(opt_ref(reply)),
{
    if let Some(document) = reply {
        let mut index: usize = 0;
        while index < TANG_TIERS
            invariant
                index <= TANG_TIERS,
                reply == Some(document),
                tang_from(document@, 0) == tang_from(document@, index as int),
            decreases TANG_TIERS - index,
        {
            let (name, quality) = tang_tier(index);
            match json::text_at(document.get(name)) {
                Some(url) => {
                    if text::starts_with(url, "http") {
                        return QqStream {
                            url: url.to_owned(),
                            quality: quality.to_owned(),
                            extension: sources::extension_or(url, "m4a").to_owned(),
                        };
                    }
                },
                None => {},
            }
            index += 1;
        }
    }
    QqStream { url: String::new(), quality: String::new(), extension: String::new() }
}

/// A reply offers an address of the web under a name.
pub open spec fn offers(reply: JsonView, name: Seq<char>) -> bool {
    field(reply, name) matches Some(JsonView::Text(url)) && begins(url, "http"@)
}

/// The stream has the address under a name, and a label.
pub open spec fn taken_under(stream: StreamView, reply: JsonView, name: Seq<char>, label: Seq<char>) -> bool {
    field(reply, name) == Some(JsonView::Text(stream.url)) && stream.quality == label && stream.extension
        == short_extension(stream.url, "m4a"@)
}

/// The tang resolver gives the best that its reply offers: the lossless address
/// wherever there is one, then the others in the order of their quality, each
/// under its label. There is no stream only where none of the seven is offered.
pub proof fn best_tang_address_is_taken(reply: JsonView)
    ensures
        ({
            let stream = tang_stream(Some(reply));
            let sq = offers(reply, "song_play_url_sq"@);
            let pq = offers(reply, "song_play_url_pq"@);
            let accompaniment = offers(reply, "song_play_url_accom"@);
            let hq = offers(reply, "song_play_url_hq"@);
            let plain = offers(reply, "song_play_url"@);
            let standard = offers(reply, "song_play_url_standard"@);
            let fq = offers(reply, "song_play_url_fq"@);
            &&& sq ==> taken_under(stream, reply, "song_play_url_sq"@, "无损"@)
            &&& !sq && pq ==> taken_under(stream, reply, "song_play_url_pq"@, "高品质"@)
            &&& !sq && !pq && accompaniment ==> taken_under(stream, reply, "song_play_url_accom"@, "伴奏"@)
            &&& !sq && !pq && !accompaniment && hq ==> taken_under(stream, reply, "song_play_url_hq"@, "320K"@)
            &&& !sq && !pq && !accompaniment && !hq && plain ==> taken_under(
                stream,
                reply,
                "song_play_url"@,
                "128K"@,
            )
            &&& !sq && !pq && !accompaniment && !hq && !plain && standard ==> taken_under(
                stream,
                reply,
                "song_play_url_standard"@,
                "128K"@,
            )
            &&& !sq && !pq && !accompaniment && !hq && !plain && !standard && fq ==> taken_under(
                stream,
                reply,
                "song_play_url_fq"@,
                "低品质"@,
            )
            &&& (sq || pq || accompaniment || hq || plain || standard || fq) <==> begins(stream.url, "http"@)
            &&& !begins(stream.url, "http"@) ==> stream.url.len() == 0 && stream.quality.len() == 0
        }),
        tang_stream(None).url.len() == 0,
        tang_stream(None).quality.len() == 0,
{
    reveal_with_fuel(tang_from, 8);
    reveal_strlit("http");
    assert(tang_tiers()[0].0 == "song_play_url_sq"@ && tang_tiers()[1].0 == "song_play_url_pq"@);
    assert(tang_tiers()[2].0 == "song_play_url_accom"@ && tang_tiers()[3].0 == "song_play_url_hq"@);
    assert(tang_tiers()[4].0 == "song_play_url"@ && tang_tiers()[5].0 == "song_play_url_standard"@);
    assert(tang_tiers()[6].0 == "song_play_url_fq"@);
}

// ---------------------------------------------------------------------------
// Resolving a track
// ---------------------------------------------------------------------------

/// A track with the stream that was found for it, or the message that none
/// was.
pub open spec fn with_stream(track: TrackView, stream: StreamView) -> Result<TrackView, Seq<char>> {
    if stream.url.len() == 0 {
        Err("QQ 音乐未返回可用音频地址"@)
    } else {
        Ok(
            TrackView {
                audio_url: stream.url,
                format: Some(in_capitals(stream.extension)),
                quality: if stream.quality.len() == 0 {
                    None
                } else {
                    Some(stream.quality)
                },
                adapter_payload: match track.adapter_payload {
                    Some(payload) => Some(with_field(payload, "extension"@, JsonView::Text(stream.extension))),
                    None => None,
                },
                ..track
            },
        )
    }
}

/// What has to be done to make a track of QQ Music playable.
pub open spec fn qq_lookup(track: TrackView) -> sources::LookupView {
    lookup_of(track, "qq:"@, "歌曲标识不属于 QQ 音乐"@)
}

/// The song of QQ Music that a track is, or the message that it is none.
pub open spec fn qq_song(track: TrackView) -> Result<Seq<char>, Seq<char>> {
    song_of(track, "qq:"@, "歌曲标识不属于 QQ 音乐"@)
}

/// The song of QQ Music that a track is, where it is one.
pub open spec fn qq_identifier(track: TrackView) -> Option<Seq<char>> {
    without_prefix(track.id, "qq:"@)
}

/// What was found by searching is looked up, and its lyrics and its quality are
/// asked for, under the identifier of its card; a track of another source is
/// refused.
pub proof fn found_songs_are_looked_up(song: QqSong, other: TrackView)
    ensures
        qq_lookup(track_of_song(song)) == sources::LookupView::Song(song.mid@),
        qq_song(track_of_song(song)) == Ok::<Seq<char>, Seq<char>>(song.mid@),
        qq_identifier(track_of_song(song)) == Some(song.mid@),
        !begins(other.id, "qq:"@) ==> qq_song(other) is Err && qq_identifier(other) is None,
        !begins(other.id, "qq:"@) && is_blank(other.audio_url) ==> qq_lookup(other) is Foreign,
        !is_blank(other.audio_url) ==> qq_lookup(other) == sources::LookupView::Ready,
{
    let message = "歌曲标识不属于 QQ 音乐"@;
    sources::songs_are_looked_up_by_their_identifier(track_of_song(song), "qq:"@, song.mid@, message);
    sources::songs_are_looked_up_by_their_identifier(other, "qq:"@, song.mid@, message);
    text::prefixes_are_taken_off("qq:"@, song.mid@, other.id);
}

/// Decides what has to be done to make a track of QQ Music playable.
pub fn resolve_start(track: &Track) -> (result: Lookup)
    ensures
        result@ == qq_lookup(track@),
{
    sources::lookup(track, "qq:", "歌曲标识不属于 QQ 音乐")
}

/// Fills in the stream that was found for a track.
pub fn resolve_track(track: &Track, stream: QqStream) -> (result: Result<Track, String>)
    ensures
        track_result(result) == with_stream(track@, stream@),
{
    if stream.url.as_str().is_empty() {
        return Err("QQ 音乐未返回可用音频地址".to_owned());
    }
    let mut resolved = track.clone();
    resolved.format = Some(text::to_upper(stream.extension.as_str()));
    resolved.adapter_payload = match &track.adapter_payload {
        Some(payload) => Some(
            json::set_field(payload.clone(), "extension", text_value(stream.extension.as_str())),
        ),
        None => None,
    };
    resolved.quality = if stream.quality.as_str().is_empty() {
        None
    } else {
        Some(stream.quality)
    };
    resolved.audio_url = stream.url;
    Ok(resolved)
}

/// The stream of a song that was found by searching is fetched with the headers
/// of its source, before it is resolved and after.
pub proof fn source_headers_are_sent(song: QqSong, stream: StreamView)
    ensures
        stream_headers_of(track_of_song(song)) == seq![("Referer"@, "http://y.qq.com"@), ("User-Agent"@, QQ_UA@)],
        with_stream(track_of_song(song), stream) matches Ok(track) ==> stream_headers_of(track) == seq![
            ("Referer"@, "http://y.qq.com"@),
            ("User-Agent"@, QQ_UA@),
        ],
{
    let referer = ("Referer"@, "http://y.qq.com"@);
    let agent = ("User-Agent"@, QQ_UA@);
    let fields = qq_payload()->Record_0;
    assert(fields =~= Seq::empty().push(("downloadHeaders"@, qq_headers())));
    json::last_value_counts(Seq::empty(), "downloadHeaders"@, qq_headers());
    kept_headers_are_sent(track_of_song(song), qq_payload(), referer, agent);
    match with_stream(track_of_song(song), stream) {
        Ok(track) => {
            let entry = JsonView::Text(stream.extension);
            reveal_strlit("downloadHeaders");
            reveal_strlit("extension");
            assert("downloadHeaders"@[0] != "extension"@[0]);
            json::set_field_reads_back(fields, "extension"@, entry, "downloadHeaders"@);
            kept_headers_are_sent(track, with_field(qq_payload(), "extension"@, entry), referer, agent);
        },
        Err(_) => {},
    }
}

/// The file of a song that was found by searching is named by the container of
/// its stream: a lossless one is never taken for another.
pub proof fn stream_names_the_file(song: QqSong, stream: StreamView)
    requires
        stream.url.len() > 0,
        !is_blank(stream.extension),
    ensures
        with_stream(track_of_song(song), stream) matches Ok(track) && download_extension(track) == lowered(
            stream.extension,
        ),
{
    json::set_field_reads_back(
        qq_payload()->Record_0,
        "extension"@,
        JsonView::Text(stream.extension),
        "extension"@,
    );
}

/// Resolving a track fills in what was found and keeps the rest: the address and
/// the label are those of the stream, and a track is refused only where no
/// stream was found.
pub proof fn resolved_tracks_have_their_stream(track: TrackView, stream: StreamView)
    ensures
        with_stream(track, stream) is Ok <==> stream.url.len() > 0,
        stream.url.len() == 0 ==> with_stream(track, stream) == Err::<TrackView, Seq<char>>("QQ 音乐未返回可用音频地址"@),
        with_stream(track, stream) matches Ok(resolved) ==> resolved.audio_url == stream.url && (stream.quality.len()
            > 0 ==> resolved.quality == Some(stream.quality)) && (stream.quality.len() == 0 ==> resolved.quality is None)
            && resolved.id == track.id && resolved.source == track.source && resolved.title == track.title
            && resolved.artist == track.artist && resolved.album == track.album && resolved.artwork_url
            == track.artwork_url && resolved.duration_ms == track.duration_ms,
        with_stream(track, stream) matches Ok(resolved) ==> (track.adapter_payload matches Some(
            JsonView::Record(fields),
        ) ==> (resolved.adapter_payload matches Some(payload) && field(payload, "extension"@) == Some(
            JsonView::Text(stream.extension),
        ))),
{
    match track.adapter_payload {
        Some(JsonView::Record(fields)) => {
            json::set_field_reads_back(fields, "extension"@, JsonView::Text(stream.extension), "extension"@);
        },
        _ => {},
    }
}

/// The song of QQ Music that a track is.
pub fn quality_start(track: &Track) -> (result: Option<String>)
    ensures
        opt(result) == qq_identifier(track@),
{
    match text::strip_prefix(track.id.as_str(), "qq:") {
        Some(song) => Some(song.to_owned()),
        None => None,
    }
}

/// The label and the format that playback will resolve to, by what the tang
/// resolver found.
pub open spec fn announced(stream: StreamView) -> Option<(Seq<char>, Seq<char>)> {
    if stream.quality.len() == 0 {
        None
    } else {
        Some((stream.quality, in_capitals(stream.extension)))
    }
}

/// What is announced for a stream is what its track shows once it is resolved.
pub proof fn announcements_come_true(track: TrackView, stream: StreamView)
    requires
        stream.url.len() > 0,
    ensures
        announced(stream) matches Some((quality, format)) ==> (with_stream(track, stream) matches Ok(resolved)
            && resolved.quality == Some(quality) && resolved.format == Some(format)),
        stream.quality.len() > 0 ==> announced(stream) is Some,
        stream.quality.len() == 0 ==> announced(stream) is None,
{
}

/// The label and the format that playback will resolve to, by what the tang
/// resolver found.
pub fn resolve_quality(stream: QqStream) -> (result: Option<(String, String)>)
    ensures
        text::opt_pair(result) == announced(stream@),
{
    if stream.quality.as_str().is_empty() {
        None
    } else {
        Some((stream.quality, text::to_upper(stream.extension.as_str())))
    }
}

/// A track that is resolved to a stream shows the label and the format that
/// were announced for this stream.
pub proof fn announced_quality_is_kept(track: TrackView, stream: StreamView)
    requires
        stream.url.len() > 0,
        stream.quality.len() > 0,
    ensures
        with_stream(track, stream) matches Ok(resolved) && resolved.quality == Some(stream.quality) && resolved.format
            == Some(in_capitals(stream.extension)),
{
}

// ---------------------------------------------------------------------------
// Lyrics
// ---------------------------------------------------------------------------

/// The request for the lyrics of a song.
pub open spec fn lyrics_request_view(song_mid: Seq<char>) -> RequestView {
    RequestView {
        method: Method::Get,
        url: "https://c.y.qq.com/lyric/fcgi-bin/fcg_query_lyric_new.fcg"@,
        query: seq![
            ("songmid"@, song_mid),
            ("g_tk"@, "5381"@),
            ("loginUin"@, "0"@),
            ("hostUin"@, "0"@),
            ("format"@, "json"@),
            ("inCharset"@, "utf8"@),
            ("outCharset"@, "utf-8"@),
            ("platform"@, "yqq"@),
        ],
        headers: seq![("User-Agent"@, QQ_UA@), ("Referer"@, "https://y.qq.com/portal/player.html"@)],
        body: BodyView::Empty,
        timeout: None,
    }
}

/// The song whose lyrics belong to a track.
pub fn lyrics_start(track: &Track) -> (result: Result<String, String>)
    ensures
        sources::result_view(result) == qq_song(track@),
{
    sources::song_id(track, "qq:", "歌曲标识不属于 QQ 音乐")
}

/// The request for the lyrics of a song.
pub fn lyrics_request(song_mid: &str) -> (result: Request)
    ensures
        result@ == lyrics_request_view(song_mid@),
{
    let mut query = no_pairs();
    add_pair(&mut query, "songmid", song_mid);
    add_pair(&mut query, "g_tk", "5381");
    add_pair(&mut query, "loginUin", "0");
    add_pair(&mut query, "hostUin", "0");
    add_pair(&mut query, "format", "json");
    add_pair(&mut query, "inCharset", "utf8");
    add_pair(&mut query, "outCharset", "utf-8");
    add_pair(&mut query, "platform", "yqq");
    let mut headers = no_pairs();
    add_pair(&mut headers, "User-Agent", QQ_UA);
    add_pair(&mut headers, "Referer", "https://y.qq.com/portal/player.html");
    Request {
        method: Method::Get,
        url: "https://c.y.qq.com/lyric/fcgi-bin/fcg_query_lyric_new.fcg".to_owned(),
        query,
        headers,
        body: Body::Empty,
        timeout: None,
    }
}

/// The lyrics in a reply, unless they are missing, broken or blank.
pub open spec fn decoded_lyrics(encoded: Option<Seq<char>>) -> Option<Seq<char>> {
    match encoded {
        Some(encoded) => sources::unless_blank(base64_decoded(vstd::utf8::encode_utf8(encoded))),
        None => None,
    }
}

/// The lyrics in a reply.
pub fn lyrics_text(encoded: Option<&str>) -> (result: Option<String>)
    ensures
        opt(result) == decoded_lyrics(opt_str(encoded)),
{
    match encoded {
        Some(encoded) => sources::keep_words(decode_base64(encoded)),
        None => None,
    }
}

// ---------------------------------------------------------------------------
// Base64
// ---------------------------------------------------------------------------

/// A byte that counts for nothing in Base64: ASCII white space or padding.
pub open spec fn is_filler(byte: u8) -> bool {
    byte == 0x20 || byte == 0x09 || byte == 0x0a || byte == 0x0c || byte == 0x0d || byte == 0x3d
}

/// The six bits that a byte of Base64 stands for.
pub open spec fn sextet(byte: u8) -> Option<u8> {
    if 0x41 <= byte <= 0x5a {
        Some((byte - 0x41) as u8)
    } else if 0x61 <= byte <= 0x7a {
        Some((byte - 0x61 + 26) as u8)
    } else if 0x30 <= byte <= 0x39 {
        Some((byte - 0x30 + 52) as u8)
    } else if byte == 0x2b {
        Some(62)
    } else if byte == 0x2f {
        Some(63)
    } else {
        None
    }
}

/// The sextets of a text, filler aside; nothing where a byte is no Base64.
pub open spec fn sextets(bytes: Seq<u8>) -> Option<Seq<u8>>
    decreases bytes.len(),
{
    if bytes.len() == 0 {
        Some(Seq::empty())
    } else {
        match sextets(bytes.drop_last()) {
            Some(before) => if is_filler(bytes.last()) {
                Some(before)
            } else {
                match sextet(bytes.last()) {
                    Some(bits) => Some(before.push(bits)),
                    None => None,
                }
            },
            None => None,
        }
    }
}

/// The bytes that sextets make: three of every four, two of three and one of
/// two that remain; a single one that remains is an error.
pub open spec fn unpacked(values: Seq<u8>) -> Option<Seq<u8>>
    decreases values.len(),
{
    if values.len() == 0 {
        Some(Seq::empty())
    } else if values.len() == 1 {
        None
    } else {
        let first = (values[0] * 4 + values[1] / 16) as u8;
        if values.len() == 2 {
            Some(seq![first])
        } else {
            let second = ((values[1] % 16) * 16 + values[2] / 4) as u8;
            if values.len() == 3 {
                Some(seq![first, second])
            } else {
                let third = ((values[2] % 4) * 64 + values[3]) as u8;
                match unpacked(values.skip(4)) {
                    Some(rest) => Some(seq![first, second, third] + rest),
                    None => None,
                }
            }
        }
    }
}

/// The text that Base64 stands for, unless it is broken or not UTF-8.
pub open spec fn base64_decoded(bytes: Seq<u8>) -> Option<Seq<char>> {
    match sextets(bytes) {
        Some(values) => match unpacked(values) {
            Some(decoded) if vstd::utf8::valid_utf8(decoded) => Some(vstd::utf8::decode_utf8(decoded)),
            _ => None,
        },
        None => None,
    }
}

/// The six bits that a byte of Base64 stands for.
fn sextet_of(byte: u8) -> (result: Option<u8>)
    ensures
        result == sextet(byte),
        result matches Some(bits) ==> bits < 64,
{
    if 0x41 <= byte && byte <= 0x5a {
        Some(byte - 0x41)
    } else if 0x61 <= byte && byte <= 0x7a {
        Some(byte - 0x61 + 26)
    } else if 0x30 <= byte && byte <= 0x39 {
        Some(byte - 0x30 + 52)
    } else if byte == 0x2b {
        Some(62)
    } else if byte == 0x2f {
        Some(63)
    } else {
        None
    }
}

/// The sextets of a text.
fn sextets_of(bytes: &[u8]) -> (result: Option<Vec<u8>>)
    ensures
        match result {
            Some(values) => sextets(bytes@) == Some(values@) && forall|i: int|
                0 <= i < values@.len() ==> (#[trigger] values@[i]) < 64,
            None => sextets(bytes@) is None,
        },
{
    let mut values: Vec<u8> = Vec::new();
    let mut i: usize = 0;
    assert(bytes@.take(0).len() == 0);
    while i < bytes.len()
        invariant
            i <= bytes@.len(),
            sextets(bytes@.take(i as int)) == Some(values@),
            forall|j: int| 0 <= j < values@.len() ==> (#[trigger] values@[j]) < 64,
        decreases bytes.len() - i,
    {
        assert(bytes@.take(i + 1).drop_last() =~= bytes@.take(i as int));
        assert(bytes@.take(i + 1).last() == bytes@[i as int]);
        let byte: u8 = bytes[i];
        if !(byte == 0x20 || byte == 0x09 || byte == 0x0a || byte == 0x0c || byte == 0x0d || byte == 0x3d) {
            match sextet_of(byte) {
                Some(bits) => {
                    values.push(bits);
                },
                None => {
                    proof {
                        lemma_sextets_broken(bytes@, i as int);
                    }
                    return None;
                },
            }
        }
        i += 1;
    }
    assert(bytes@.take(i as int) =~= bytes@);
    Some(values)
}

proof fn lemma_sextets_broken(bytes: Seq<u8>, at: int)
    requires
        0 <= at < bytes.len(),
        !is_filler(bytes[at]),
        sextet(bytes[at]) is None,
    ensures
        sextets(bytes) is None,
    decreases bytes.len(),
{
    if at < bytes.len() - 1 {
        lemma_sextets_broken(bytes.drop_last(), at);
    }
}

/// The bytes that sextets make.
fn unpack(values: &Vec<u8>) -> (result: Option<Vec<u8>>)
    requires
        forall|i: int| 0 <= i < values@.len() ==> (#[trigger] values@[i]) < 64,
    ensures
        match result {
            Some(bytes) => unpacked(values@) == Some(bytes@),
            None => unpacked(values@) is None,
        },
{
    let mut output: Vec<u8> = Vec::new();
    let mut i: usize = 0;
    let size: usize = values.len();
    assert(values@.skip(0) =~= values@);
    while i < size
        invariant
            i <= size,
            size == values@.len(),
            forall|j: int| 0 <= j < values@.len() ==> (#[trigger] values@[j]) < 64,
            match unpacked(values@.skip(i as int)) {
                Some(rest) => unpacked(values@) == Some(output@ + rest),
                None => unpacked(values@) is None,
            },
        decreases size - i,
    {
        let ghost part = values@.skip(i as int);
        let left: usize = size - i;
        if left < 2 {
            return None;
        }
        let a: u8 = values[i];
        let b: u8 = values[i + 1];
        assert(part[0] == a && part[1] == b);
        let first: u8 = (a << 2) | (b >> 4);
        assert(first == a * 4 + b / 16) by (bit_vector)
            requires
                a < 64,
                b < 64,
                first == (a << 2) | (b >> 4),
        ;
        output.push(first);
        if left == 2 {
            assert(unpacked(part) == Some(seq![first]));
            return Some(output);
        }
        let c: u8 = values[i + 2];
        assert(part[2] == c);
        let second: u8 = (b << 4) | (c >> 2);
        assert(second == (b % 16) * 16 + c / 4) by (bit_vector)
            requires
                b < 64,
                c < 64,
                second == (b << 4) | (c >> 2),
        ;
        let ghost before = output@.drop_last();
        output.push(second);
        if left == 3 {
            assert(unpacked(part) == Some(seq![first, second]));
            assert(output@ =~= before + seq![first, second]);
            return Some(output);
        }
        let d: u8 = values[i + 3];
        assert(part[3] == d);
        let third: u8 = (c << 6) | d;
        assert(third == (c % 4) * 64 + d) by (bit_vector)
            requires
                c < 64,
                d < 64,
                third == (c << 6) | d,
        ;
        output.push(third);
        assert(part.skip(4) =~= values@.skip(i + 4));
        assert(output@ =~= before + seq![first, second, third]);
        proof {
            match unpacked(part.skip(4)) {
                Some(rest) => {
                    assert(before + (seq![first, second, third] + rest) =~= output@ + rest);
                },
                None => {},
            }
        }
        i += 4;
    }
    assert(values@.skip(i as int) =~= Seq::<u8>::empty());
    assert(output@ + Seq::<u8>::empty() =~= output@);
    Some(output)
}

/// Decodes Base64 text; nothing where it is broken or does not stand for text.
pub fn decode_base64(input: &str) -> (result: Option<String>)
    ensures
        opt(result) == base64_decoded(vstd::utf8::encode_utf8(input@)),
{
    match sextets_of(input.as_bytes()) {
        Some(values) => match unpack(&values) {
            Some(bytes) => match text::utf8_text(bytes) {
                Ok(decoded) => Some(decoded),
                Err(_) => None,
            },
            None => None,
        },
        None => None,
    }
}

/// The byte of Base64 that stands for six bits.
pub open spec fn base64_byte(bits: u8) -> u8 {
    if bits < 26 {
        (0x41 + bits) as u8
    } else if bits < 52 {
        (0x61 + bits - 26) as u8
    } else if bits < 62 {
        (0x30 + bits - 52) as u8
    } else if bits == 62 {
        0x2b
    } else {
        0x2f
    }
}

/// Bytes written in Base64, with padding.
pub open spec fn base64_encoded(bytes: Seq<u8>) -> Seq<u8>
    decreases bytes.len(),
{
    if bytes.len() == 0 {
        Seq::empty()
    } else {
        let first = base64_byte((bytes[0] / 4) as u8);
        if bytes.len() == 1 {
            seq![first, base64_byte(((bytes[0] % 4) * 16) as u8), 0x3d, 0x3d]
        } else {
            let second = base64_byte(((bytes[0] % 4) * 16 + bytes[1] / 16) as u8);
            if bytes.len() == 2 {
                seq![first, second, base64_byte(((bytes[1] % 16) * 4) as u8), 0x3d]
            } else {
                seq![
                    first,
                    second,
                    base64_byte(((bytes[1] % 16) * 4 + bytes[2] / 64) as u8),
                    base64_byte((bytes[2] % 64) as u8),
                ] + base64_encoded(bytes.skip(3))
            }
        }
    }
}

proof fn lemma_sextets_join(left: Seq<u8>, right: Seq<u8>)
    ensures
        sextets(left + right) == (match (sextets(left), sextets(right)) {
            (Some(first), Some(second)) => Some(first + second),
            _ => None,
        }),
    decreases right.len(),
{
    if right.len() == 0 {
        assert(left + right =~= left);
        assert(sextets(right) == Some(Seq::<u8>::empty()));
        if sextets(left) is Some {
            assert(sextets(left)->0 + Seq::<u8>::empty() =~= sextets(left)->0);
        }
    } else {
        lemma_sextets_join(left, right.drop_last());
        assert((left + right).drop_last() =~= left + right.drop_last());
        assert((left + right).last() == right.last());
        if sextets(left) is Some && sextets(right.drop_last()) is Some && sextet(right.last()) is Some {
            let first = sextets(left)->0;
            let second = sextets(right.drop_last())->0;
            assert((first + second).push(sextet(right.last())->0) =~= first + second.push(sextet(right.last())->0));
        }
    }
}

proof fn lemma_sextets_of_four(a: u8, b: u8, c: u8, d: u8)
    requires
        a < 64,
        b < 64,
    ensures
        c < 64 && d < 64 ==> sextets(seq![base64_byte(a), base64_byte(b), base64_byte(c), base64_byte(d)]) == Some(
            seq![a, b, c, d],
        ),
        c < 64 ==> sextets(seq![base64_byte(a), base64_byte(b), base64_byte(c), 0x3d]) == Some(seq![a, b, c]),
        sextets(seq![base64_byte(a), base64_byte(b), 0x3d, 0x3d]) == Some(seq![a, b]),
{
    reveal_with_fuel(sextets, 5);
    let one = seq![base64_byte(a)];
    let two = seq![base64_byte(a), base64_byte(b)];
    assert(one.drop_last() =~= Seq::<u8>::empty());
    assert(two.drop_last() =~= one);
    assert(sextets(two)->0 =~= seq![a, b]);
    assert(seq![base64_byte(a), base64_byte(b), 0x3d].drop_last() =~= two);
    assert(seq![base64_byte(a), base64_byte(b), 0x3d, 0x3d].drop_last() =~= seq![base64_byte(a), base64_byte(b), 0x3d]);
    if c < 64 {
        let three = seq![base64_byte(a), base64_byte(b), base64_byte(c)];
        assert(three.drop_last() =~= two);
        assert(sextets(three)->0 =~= seq![a, b, c]);
        assert(seq![base64_byte(a), base64_byte(b), base64_byte(c), 0x3d].drop_last() =~= three);
        if d < 64 {
            let four = seq![base64_byte(a), base64_byte(b), base64_byte(c), base64_byte(d)];
            assert(four.drop_last() =~= three);
            assert(sextets(four)->0 =~= seq![a, b, c, d]);
        }
    }
}

proof fn lemma_unpacks_encoded(bytes: Seq<u8>)
    ensures
        sextets(base64_encoded(bytes)) is Some,
        unpacked(sextets(base64_encoded(bytes))->0) == Some(bytes),
    decreases bytes.len(),
{
    if bytes.len() == 0 {
    } else if bytes.len() == 1 {
        let a = (bytes[0] / 4) as u8;
        let b = ((bytes[0] % 4) * 16) as u8;
        lemma_sextets_of_four(a, b, 0, 0);
        assert(seq![bytes[0]] =~= bytes);
    } else if bytes.len() == 2 {
        let a = (bytes[0] / 4) as u8;
        let b = ((bytes[0] % 4) * 16 + bytes[1] / 16) as u8;
        let c = ((bytes[1] % 16) * 4) as u8;
        lemma_sextets_of_four(a, b, c, 0);
        assert(seq![bytes[0], bytes[1]] =~= bytes);
    } else {
        let a = (bytes[0] / 4) as u8;
        let b = ((bytes[0] % 4) * 16 + bytes[1] / 16) as u8;
        let c = ((bytes[1] % 16) * 4 + bytes[2] / 64) as u8;
        let d = (bytes[2] % 64) as u8;
        let rest = bytes.skip(3);
        lemma_sextets_of_four(a, b, c, d);
        lemma_unpacks_encoded(rest);
        let head = seq![base64_byte(a), base64_byte(b), base64_byte(c), base64_byte(d)];
        lemma_sextets_join(head, base64_encoded(rest));
        let values = sextets(base64_encoded(bytes))->0;
        assert(values =~= seq![a, b, c, d] + sextets(base64_encoded(rest))->0);
        assert(values.skip(4) =~= sextets(base64_encoded(rest))->0);
        assert(seq![bytes[0], bytes[1], bytes[2]] + rest =~= bytes);
    }
}

/// The bytes of a text, filler aside.
pub open spec fn without_filler(bytes: Seq<u8>) -> Seq<u8> {
    bytes.filter(|byte: u8| !is_filler(byte))
}

proof fn lemma_filler_is_skipped(bytes: Seq<u8>)
    ensures
        sextets(bytes) == sextets(without_filler(bytes)),
    decreases bytes.len(),
{
    reveal(Seq::filter);
    if bytes.len() > 0 {
        lemma_filler_is_skipped(bytes.drop_last());
        let before = without_filler(bytes.drop_last());
        if !is_filler(bytes.last()) {
            assert(without_filler(bytes) == before.push(bytes.last()));
            assert(before.push(bytes.last()).drop_last() =~= before);
        }
    }
}

/// White space and padding make no difference, wherever they stand: texts that
/// are equal aside from them are decoded alike.
pub proof fn filler_makes_no_difference(left: Seq<u8>, right: Seq<u8>)
    requires
        without_filler(left) == without_filler(right),
    ensures
        base64_decoded(left) == base64_decoded(right),
{
    lemma_filler_is_skipped(left);
    lemma_filler_is_skipped(right);
}

/// Words that were encoded are read back, with their padding or without it, and
/// with any white space in between.
pub proof fn base64_reads_back(words: Seq<char>, encoded: Seq<u8>)
    requires
        without_filler(encoded) == without_filler(base64_encoded(vstd::utf8::encode_utf8(words))),
    ensures
        base64_decoded(encoded) == Some(words),
{
    lemma_unpacks_encoded(vstd::utf8::encode_utf8(words));
    vstd::utf8::encode_utf8_valid_utf8(words);
    vstd::utf8::encode_utf8_decode_utf8(words);
    filler_makes_no_difference(encoded, base64_encoded(vstd::utf8::encode_utf8(words)));
}

/// Lyrics that were encoded are shown as they are, unless they are blank.
pub proof fn encoded_lyrics_are_shown(words: Seq<char>, encoded: Seq<char>, i: int)
    requires
        without_filler(vstd::utf8::encode_utf8(encoded)) == without_filler(
            base64_encoded(vstd::utf8::encode_utf8(words)),
        ),
        0 <= i < words.len(),
        !text::is_space(words[i]),
    ensures
        decoded_lyrics(Some(encoded)) == Some(words),
        decoded_lyrics(None) is None,
{
    base64_reads_back(words, vstd::utf8::encode_utf8(encoded));
}

} // verus!
