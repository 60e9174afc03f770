//! Playback: the addresses that the player asks for, and what is answered.
use crate::artwork::{ArtworkView, LocalArtwork};
use crate::domain::{tracks_view, Track, TrackView};
use crate::headers;
use crate::json::{as_record, field, JsonView};
use crate::local::{local_path, path_of};
use crate::media::{bare_type, container, is_document, is_document_type, served_type, stream_content_type};
use crate::order::{self, alphabetical, arranged, sorted_places};
use crate::request::{add_pair, no_pairs, pairs_view};
use crate::shelf::{Shelf, ShelfView};
use crate::text::{self, before_first, concat, decimal, in_small_letters, number_of, opt_str, split_first, stripped_start, texts, trimmed, without_prefix};
use vstd::prelude::*;
use vstd::string::*;

verus! {

// ---------------------------------------------------------------------------
// Ranges
// ---------------------------------------------------------------------------

/// The last byte of a first segment: what is sent where no range is asked for.
pub const SEGMENT_END: u64 = 65_535;

/// The smaller of two numbers.
pub open spec fn least(left: u64, right: u64) -> u64 {
    if left <= right {
        left
    } else {
        right
    }
}

/// The greater of two numbers.
pub open spec fn greatest(left: u64, right: u64) -> u64 {
    if left >= right {
        left
    } else {
        right
    }
}

/// The first range in a `Range` header, as the texts before and behind its
/// hyphen.
pub open spec fn first_range(range: Seq<char>) -> Option<(Seq<char>, Seq<char>)> {
    match without_prefix(trimmed(range), "bytes="@) {
        Some(ranges) => split_first(before_first(ranges, ","@), "-"@),
        None => None,
    }
}

/// The bytes that are sent of a file of `total` bytes, from first to last. An
/// empty file has none. A header that is missing or holds no range of bytes
/// asks for the first segment; a range without a first byte asks for as many
/// bytes at the end; any other begins at its first byte, and ends at its last
/// byte or with the file. Nothing is sent where a number that is needed cannot
/// be read, or where the range begins behind the file.
pub open spec fn granted_range(range: Option<Seq<char>>, total: u64) -> Option<(u64, u64)> {
    let opening = Some((0u64, least((total - 1) as u64, SEGMENT_END)));
    if total == 0 {
        None
    } else {
        match range {
            Some(range) => match first_range(range) {
                Some((start, end)) => if start.len() == 0 {
                    match number_of(end) {
                        Some(length) => Some(((total - least(length, total)) as u64, (total - 1) as u64)),
                        None => None,
                    }
                } else {
                    match number_of(start) {
                        Some(first) => if first >= total {
                            None
                        } else {
                            let last = match number_of(end) {
                                Some(last) => least(last, (total - 1) as u64),
                                None => (total - 1) as u64,
                            };
                            Some((first, greatest(last, first)))
                        },
                        None => None,
                    }
                },
                None => opening,
            },
            None => opening,
        }
    }
}

/// The bytes that are sent of a file, for the text of a `Range` header.
pub fn local_range(range: Option<&str>, total: u64) -> (result: Option<(u64, u64)>)
    ensures
        result == granted_range(opt_str(range), total),
{
    if total == 0 {
        return None;
    }
    let last_byte: u64 = total - 1;
    let opening: (u64, u64) = if last_byte <= SEGMENT_END {
        (0, last_byte)
    } else {
        (0, SEGMENT_END)
    };
    let raw = match range {
        Some(raw) => raw,
        None => {
            return Some(opening);
        },
    };
    let ranges = match text::strip_prefix(text::trim(raw), "bytes=") {
        Some(ranges) => ranges,
        None => {
            return Some(opening);
        },
    };
    let (start, end) = match text::split_once(text::head(ranges, ","), "-") {
        Some(ends) => ends,
        None => {
            return Some(opening);
        },
    };
    if start.is_empty() {
        return match text::parse_number(end) {
            Some(length) => {
                let length: u64 = if length <= total {
                    length
                } else {
                    total
                };
                Some((total - length, last_byte))
            },
            None => None,
        };
    }
    match text::parse_number(start) {
        Some(first) => {
            if first >= total {
                return None;
            }
            let last: u64 = match text::parse_number(end) {
                Some(last) => if last <= last_byte {
                    last
                } else {
                    last_byte
                },
                None => last_byte,
            };
            Some((
                first,
                if last >= first {
                    last
                } else {
                    first
                },
            ))
        },
        None => None,
    }
}

/// The bytes that are sent of a file, for the value of a `Range` header.
pub fn requested_local_range(range: Option<&reqwest::header::HeaderValue>, total: u64) -> (result: Option<(u64, u64)>)
    ensures
        result == granted_range(
            match range {
                Some(value) => headers::visible_text(headers::header_bytes(*value)),
                None => None,
            },
            total,
        ),
{
    local_range(headers::header_str(range), total)
}

/// Whatever the header says, only bytes of the file are granted, and at least
/// one of them; the one exception is a range of no bytes at the end, which
/// begins right behind the file.
pub proof fn granted_range_is_inside(range: Option<Seq<char>>, total: u64)
    ensures
        match granted_range(range, total) {
            Some((first, last)) => last < total && (first <= last || (first == total && last == total - 1)),
            None => true,
        },
{
}

/// A file that is not empty is always answered where no range is asked for,
/// with its first bytes.
pub proof fn opening_is_granted(total: u64)
    requires
        total > 0,
    ensures
        granted_range(None, total) == Some((0u64, least((total - 1) as u64, SEGMENT_END))),
{
}

/// The header of a range, from the texts before and behind its hyphen, with
/// white space around it and with more ranges behind it.
pub open spec fn range_header(
    lead: Seq<char>,
    start: Seq<char>,
    end: Seq<char>,
    more: Option<Seq<char>>,
    trail: Seq<char>,
) -> Seq<char> {
    let range = "bytes="@ + start + seq!['-'] + end;
    match more {
        Some(more) => lead + (range + seq![','] + more) + trail,
        None => lead + range + trail,
    }
}

/// The texts before and behind a hyphen together hold no comma and do not end
/// with white space.
proof fn lemma_ends(start: Seq<char>, end: Seq<char>)
    requires
        forall|i: int| 0 <= i < start.len() ==> #[trigger] start[i] != ',' && start[i] != '-',
        forall|i: int| 0 <= i < end.len() ==> #[trigger] end[i] != ',',
        end.len() > 0 ==> !text::is_space(end.last()),
    ensures
        !start.contains('-'),
        !(start + seq!['-'] + end).contains(','),
        !text::is_space((start + seq!['-'] + end).last()),
{
    let ends = start + seq!['-'] + end;
    assert forall|i: int| 0 <= i < ends.len() implies ends[i] != ',' by {
        if i < start.len() {
            assert(ends[i] == start[i]);
        } else if i > start.len() {
            assert(ends[i] == end[i - start.len() - 1]);
        }
    }
    assert(!text::is_space('-'));
    if end.len() > 0 {
        assert(ends.last() == end.last());
    } else {
        assert(ends.last() == '-');
    }
}

/// White space around a header is left out, and so are the words before the
/// ranges.
proof fn lemma_ranges(lead: Seq<char>, ranges: Seq<char>, trail: Seq<char>)
    requires
        text::is_blank(lead),
        text::is_blank(trail),
        ranges.len() > 0,
        !text::is_space(ranges.last()),
    ensures
        without_prefix(trimmed(lead + ("bytes="@ + ranges) + trail), "bytes="@) == Some(ranges),
{
    reveal_strlit("bytes=");
    let header = "bytes="@ + ranges;
    assert(header[0] == 'b');
    assert(header.last() == ranges.last());
    assert(!text::is_space('b'));
    text::trimming_takes_white_space_alone(lead, header, trail);
    text::prefixes_are_taken_off("bytes="@, ranges, Seq::empty());
}

/// The ranges of a header, from the texts before and behind the hyphen of the
/// first and from what follows it.
spec fn ranges_of(start: Seq<char>, end: Seq<char>, more: Option<Seq<char>>) -> Seq<char> {
    let ends = start + seq!['-'] + end;
    match more {
        Some(more) => ends + seq![','] + more,
        None => ends,
    }
}

/// The first of the ranges is read.
proof fn lemma_first_of_ranges(start: Seq<char>, end: Seq<char>, more: Option<Seq<char>>)
    requires
        !start.contains('-'),
        !(start + seq!['-'] + end).contains(','),
    ensures
        split_first(before_first(ranges_of(start, end, more), ","@), "-"@) == Some((start, end)),
{
    assert(","@ =~= seq![',']) by {
        reveal_strlit(",");
    }
    assert("-"@ =~= seq!['-']) by {
        reveal_strlit("-");
    }
    let ends = start + seq!['-'] + end;
    match more {
        Some(more) => text::texts_are_cut_at_the_first_mark(ends, ',', more),
        None => text::texts_are_cut_at_the_first_mark(ends, ',', Seq::empty()),
    }
    text::texts_are_cut_at_the_first_mark(start, '-', end);
}

/// A header is its ranges behind the words that announce them.
proof fn lemma_header_text(lead: Seq<char>, start: Seq<char>, end: Seq<char>, more: Option<Seq<char>>, trail: Seq<char>)
    ensures
        range_header(lead, start, end, more, trail) == lead + ("bytes="@ + ranges_of(start, end, more)) + trail,
{
    let range = "bytes="@ + start + seq!['-'] + end;
    match more {
        Some(more) => {
            assert(range + seq![','] + more =~= "bytes="@ + (start + seq!['-'] + end + seq![','] + more));
        },
        None => {
            assert(range =~= "bytes="@ + (start + seq!['-'] + end));
        },
    }
}

proof fn lemma_range_header(lead: Seq<char>, start: Seq<char>, end: Seq<char>, more: Option<Seq<char>>, trail: Seq<char>)
    requires
        text::is_blank(lead),
        text::is_blank(trail),
        forall|i: int| 0 <= i < start.len() ==> #[trigger] start[i] != ',' && start[i] != '-',
        forall|i: int| 0 <= i < end.len() ==> #[trigger] end[i] != ',',
        end.len() > 0 ==> !text::is_space(end.last()),
        more matches Some(more) ==> more.len() > 0 && !text::is_space(more.last()),
    ensures
        first_range(range_header(lead, start, end, more, trail)) == Some((start, end)),
{
    let ranges = ranges_of(start, end, more);
    lemma_ends(start, end);
    assert(ranges.len() > 0 && !text::is_space(ranges.last())) by {
        if let Some(more) = more {
            assert(ranges.last() == more.last());
        }
    }
    lemma_first_of_ranges(start, end, more);
    lemma_ranges(lead, ranges, trail);
    lemma_header_text(lead, start, end, more, trail);
}

/// The bytes that the player asks for are the bytes that it gets: a range from
/// first to last is granted as it is, one that goes on behind the file ends with
/// the file, one without an end goes to the end of the file, and one without a
/// beginning is as long as it says and ends with the file. White space around
/// the header and further ranges behind the first make no difference.
pub proof fn ranges_are_granted_as_asked(
    first: u64,
    last: u64,
    total: u64,
    lead: Seq<char>,
    more: Option<Seq<char>>,
    trail: Seq<char>,
)
    requires
        text::is_blank(lead),
        text::is_blank(trail),
        more matches Some(more) ==> more.len() > 0 && !text::is_space(more.last()),
    ensures
        first <= last < total ==> granted_range(
            Some(range_header(lead, decimal(first as nat), decimal(last as nat), more, trail)),
            total,
        ) == Some((first, last)),
        first < total <= last ==> granted_range(
            Some(range_header(lead, decimal(first as nat), decimal(last as nat), more, trail)),
            total,
        ) == Some((first, (total - 1) as u64)),
        last < first < total ==> granted_range(
            Some(range_header(lead, decimal(first as nat), decimal(last as nat), more, trail)),
            total,
        ) == Some((first, first)),
        first < total ==> granted_range(
            Some(range_header(lead, decimal(first as nat), Seq::empty(), more, trail)),
            total,
        ) == Some((first, (total - 1) as u64)),
        first >= total ==> granted_range(
            Some(range_header(lead, decimal(first as nat), decimal(last as nat), more, trail)),
            total,
        ) is None,
        last <= total && total > 0 ==> granted_range(
            Some(range_header(lead, Seq::empty(), decimal(last as nat), more, trail)),
            total,
        ) == Some(((total - last) as u64, (total - 1) as u64)),
        last > total > 0 ==> granted_range(
            Some(range_header(lead, Seq::empty(), decimal(last as nat), more, trail)),
            total,
        ) == Some((0u64, (total - 1) as u64)),
{
    text::decimal_reads_back(first);
    text::decimal_reads_back(last);
    text::decimal_starts_plainly(first);
    text::decimal_starts_plainly(last);
    let end = decimal(last as nat);
    assert('0' <= end[end.len() - 1] <= '9');
    lemma_range_header(lead, decimal(first as nat), decimal(last as nat), more, trail);
    lemma_range_header(lead, decimal(first as nat), Seq::empty(), more, trail);
    lemma_range_header(lead, Seq::empty(), decimal(last as nat), more, trail);
}

/// A range whose beginning is no number, or whose length at the end of the file
/// is none, is refused; one whose end is no number goes to the end of the file.
pub proof fn broken_ranges_are_refused(first: u64, total: u64, words: Seq<char>)
    requires
        total > 0,
        forall|i: int| 0 <= i < words.len() ==> #[trigger] words[i] != ',' && words[i] != '-',
        words.len() > 0,
        !text::is_space(words.last()),
        number_of(words) is None,
    ensures
        granted_range(Some("bytes="@ + words + seq!['-'] + decimal(first as nat)), total) is None,
        granted_range(Some("bytes="@ + seq!['-'] + words), total) is None,
        first < total ==> granted_range(Some("bytes="@ + decimal(first as nat) + seq!['-'] + words), total) == Some(
            (first, (total - 1) as u64),
        ),
        granted_range(Some("bytes="@ + words), total) == granted_range(None, total),
{
    let none = Seq::<char>::empty();
    let digits = decimal(first as nat);
    text::decimal_reads_back(first);
    text::decimal_starts_plainly(first);
    assert('0' <= digits[digits.len() - 1] <= '9');
    lemma_range_header(none, words, digits, None, none);
    lemma_range_header(none, none, words, None, none);
    lemma_range_header(none, digits, words, None, none);
    assert(range_header(none, words, digits, None, none) =~= "bytes="@ + words + seq!['-'] + digits);
    assert(range_header(none, none, words, None, none) =~= "bytes="@ + seq!['-'] + words);
    assert(range_header(none, digits, words, None, none) =~= "bytes="@ + digits + seq!['-'] + words);
    reveal_strlit("bytes=");
    reveal_strlit(",");
    reveal_strlit("-");
    assert(","@ =~= seq![',']);
    assert("-"@ =~= seq!['-']);
    let header = "bytes="@ + words;
    assert(header[0] == 'b' && header.last() == words.last());
    text::trimming_takes_white_space_alone(none, header, none);
    assert(none + header + none =~= header);
    text::prefixes_are_taken_off("bytes="@, words, none);
    assert(!words.contains(',') && !words.contains('-'));
    text::texts_are_cut_at_the_first_mark(words, ',', none);
    text::texts_are_cut_at_the_first_mark(words, '-', none);
}

/// Where no range of bytes is asked for, the file is answered from its
/// beginning: as much of it as a first segment holds. An empty file has nothing
/// to answer with.
pub proof fn files_are_answered_from_their_beginning(range: Seq<char>, total: u64)
    ensures
        0 < total <= 65536 ==> granted_range(None, total) == Some((0u64, (total - 1) as u64)),
        total > 65536 ==> granted_range(None, total) == Some((0u64, 65535u64)),
        total > 0 && !text::begins(trimmed(range), "bytes="@) ==> granted_range(Some(range), total) == granted_range(
            None,
            total,
        ),
        granted_range(None, 0) is None,
        granted_range(Some(range), 0) is None,
{
}

/// How many bytes a granted range has: none where it begins right behind its end.
pub fn range_length(first: u64, last: u64) -> (result: u64)
    requires
        first <= last + 1,
        last < u64::MAX,
    ensures
        result == last - first + 1,
{
    (last + 1) - first
}

// ---------------------------------------------------------------------------
// Answers
// ---------------------------------------------------------------------------

/// An answer to the player: its status, its headers, the `Content-Range` that a
/// source sent, byte for byte, and its body.
#[derive(Debug)]
pub struct Reply {
    pub status: u16,
    pub headers: Vec<(String, String)>,
    pub content_range: Option<Vec<u8>>,
    pub body: Vec<u8>,
}

/// The mathematical value of a [`Reply`].
#[verifier::ext_equal]
pub struct ReplyView {
    pub status: u16,
    pub headers: Seq<(Seq<char>, Seq<char>)>,
    pub content_range: Option<Seq<u8>>,
    pub body: Seq<u8>,
}

impl View for Reply {
    type V = ReplyView;

    open spec fn view(&self) -> ReplyView {
        ReplyView {
            status: self.status,
            headers: pairs_view(self.headers@),
            content_range: match self.content_range {
                Some(bytes) => Some(bytes@),
                None => None,
            },
            body: self.body@,
        }
    }
}

/// An answer that is nothing but a status.
pub open spec fn bare(status: u16) -> ReplyView {
    ReplyView { status, headers: Seq::empty(), content_range: None, body: Seq::empty() }
}

/// An answer that is nothing but a status.
pub fn bare_reply(status: u16) -> (result: Reply)
    ensures
        result@ == bare(status),
{
    let result = Reply { status, headers: no_pairs(), content_range: None, body: Vec::new() };
    assert(result@.body =~= Seq::<u8>::empty());
    result
}

/// An answer that is nothing but a status has nothing else in it.
pub proof fn bare_answers_are_empty(status: u16)
    ensures
        bare(status).status == status,
        bare(status).headers.len() == 0,
        bare(status).body.len() == 0,
        bare(status).content_range is None,
{
}

/// The name that the path of an address holds: the path without the slashes at
/// its beginning.
pub fn token_of(path: &str) -> (result: &str)
    ensures
        result@ == stripped_start(path@, "/"@),
{
    text::strip_start(path, "/")
}

/// The answer with a picture.
pub open spec fn artwork_answer(artwork: Option<ArtworkView>) -> ReplyView {
    match artwork {
        Some(artwork) => ReplyView {
            status: 200,
            headers: seq![
                ("Content-Type"@, artwork.content_type),
                ("Content-Length"@, decimal(artwork.bytes.len())),
                ("Cache-Control"@, "no-store"@),
            ],
            content_range: None,
            body: artwork.bytes,
        },
        None => bare(404),
    }
}

/// What a shelf keeps under the name in a path.
pub open spec fn kept_at<T>(shelf: ShelfView<T>, path: Seq<char>) -> Option<T> {
    let token = stripped_start(path, "/"@);
    if shelf.kept.dom().contains(token) {
        Some(shelf.kept[token])
    } else {
        None
    }
}

/// Answers the request for a picture.
pub fn artwork_reply(shelf: &Shelf<LocalArtwork>, path: &str) -> (result: Reply)
    ensures
        result@ == artwork_answer(crate::artwork::opt_artwork(kept_at(shelf@, path@))),
{
    match shelf.get(token_of(path)) {
        Some(artwork) => {
            let mut headers = no_pairs();
            add_pair(&mut headers, "Content-Type", artwork.content_type.as_str());
            add_pair(&mut headers, "Content-Length", text::number_text(artwork.bytes.len() as u64).as_str());
            add_pair(&mut headers, "Cache-Control", "no-store");
            Reply {
                status: 200,
                headers,
                content_range: None,
                body: crate::media::copy_bytes(artwork.bytes.as_slice()),
            }
        },
        None => bare_reply(404),
    }
}

/// What has to be done to answer the request for a track.
#[derive(Debug)]
pub enum Playback {
    /// There is no such track: answer so.
    Unknown(Reply),
    /// Read the file at this path.
    File(Track, String),
    /// Fetch the stream.
    Stream(Track),
}

/// The mathematical value of a [`Playback`].
#[verifier::ext_equal]
pub enum PlaybackView {
    Unknown(ReplyView),
    File(TrackView, Seq<char>),
    Stream(TrackView),
}

impl View for Playback {
    type V = PlaybackView;

    open spec fn view(&self) -> PlaybackView {
        match *self {
            Playback::Unknown(reply) => PlaybackView::Unknown(reply@),
            Playback::File(track, file) => PlaybackView::File(track@, file@),
            Playback::Stream(track) => PlaybackView::Stream(track@),
        }
    }
}

/// What has to be done to answer the request for a track.
pub open spec fn playback_of(kept: Option<TrackView>) -> PlaybackView {
    match kept {
        Some(track) => match path_of(track) {
            Some(file) => PlaybackView::File(track, file),
            None => PlaybackView::Stream(track),
        },
        None => PlaybackView::Unknown(bare(404)),
    }
}

/// A local track is played from its file and any other from its stream; what is
/// not kept is not found.
pub proof fn local_tracks_play_their_file(track: TrackView, path: Seq<char>)
    ensures
        path_of(track) == Some(path) ==> playback_of(Some(track)) == PlaybackView::File(track, path),
        path_of(track) is None ==> playback_of(Some(track)) == PlaybackView::Stream(track),
        playback_of(None) matches PlaybackView::Unknown(reply) && reply.status == 404,
{
}

/// Decides what has to be done to answer the request for a track.
pub fn playback(shelf: &Shelf<Track>, path: &str) -> (result: Playback)
    ensures
        result@ == playback_of(
            match kept_at(shelf@, path@) {
                Some(track) => Some(track@),
                None => None,
            },
        ),
        match result {
            Playback::Unknown(reply) => kept_at(shelf@, path@) is None && reply@ == bare(404),
            Playback::File(track, file) => kept_at(shelf@, path@) is Some && track@ == kept_at(shelf@, path@)->0@
                && path_of(track@) == Some(file@),
            Playback::Stream(track) => kept_at(shelf@, path@) is Some && track@ == kept_at(shelf@, path@)->0@
                && path_of(track@) is None,
        },
{
    match shelf.get(token_of(path)) {
        Some(track) => match local_path(track) {
            Some(file) => Playback::File(track.clone(), file),
            None => Playback::Stream(track.clone()),
        },
        None => Playback::Unknown(bare_reply(404)),
    }
}

/// The answer where a file has no such range.
pub open spec fn unsatisfied(total: u64) -> ReplyView {
    ReplyView {
        status: 416,
        headers: seq![("Content-Range"@, "bytes */"@ + decimal(total as nat))],
        content_range: None,
        body: Seq::empty(),
    }
}

/// The answer where a file has no such range.
pub fn unsatisfied_reply(total: u64) -> (result: Reply)
    ensures
        result@ == unsatisfied(total),
{
    let mut headers = no_pairs();
    add_pair(&mut headers, "Content-Range", concat("bytes */", text::number_text(total).as_str()).as_str());
    let result = Reply { status: 416, headers, content_range: None, body: Vec::new() };
    assert(result@.body =~= Seq::<u8>::empty());
    result
}

/// A range of a file as a header tells it.
pub open spec fn range_text(first: u64, last: u64, total: u64) -> Seq<char> {
    "bytes "@ + decimal(first as nat) + "-"@ + decimal(last as nat) + "/"@ + decimal(total as nat)
}

/// The answer with bytes of a file.
pub open spec fn file_answer(track: TrackView, first: u64, last: u64, total: u64, body: Seq<u8>) -> ReplyView {
    ReplyView {
        status: 206,
        headers: seq![
            ("Accept-Ranges"@, "bytes"@),
            ("Content-Type"@, served_type(container(track), bare_type(None))),
            ("Content-Length"@, decimal(body.len())),
            ("Content-Range"@, range_text(first, last, total)),
        ],
        content_range: None,
        body,
    }
}

/// Answers with bytes of a file; `None` where they could not be read.
pub fn file_reply(track: &Track, first: u64, last: u64, total: u64, body: Option<Vec<u8>>) -> (result: Reply)
    ensures
        result@ == (match body {
            Some(body) => file_answer(track@, first, last, total, body@),
            None => bare(500),
        }),
{
    match body {
        Some(body) => {
            let mut range = concat("bytes ", text::number_text(first).as_str());
            range.append("-");
            range.append(text::number_text(last).as_str());
            range.append("/");
            range.append(text::number_text(total).as_str());
            let mut headers = no_pairs();
            add_pair(&mut headers, "Accept-Ranges", "bytes");
            add_pair(&mut headers, "Content-Type", crate::media::file_content_type(track).as_str());
            add_pair(&mut headers, "Content-Length", text::number_text(body.len() as u64).as_str());
            add_pair(&mut headers, "Content-Range", range.as_str());
            Reply { status: 206, headers, content_range: None, body }
        },
        None => bare_reply(500),
    }
}

/// The answer with bytes of a file tells exactly which they are: its body is
/// those bytes, its length their number, and its range and its total are what
/// the file gave.
pub proof fn file_answers_tell_their_bytes(track: TrackView, first: u64, last: u64, total: u64, body: Seq<u8>)
    ensures
        file_answer(track, first, last, total, body).status == 206,
        file_answer(track, first, last, total, body).body == body,
        file_answer(track, first, last, total, body).headers.contains(("Content-Length"@, decimal(body.len()))),
        file_answer(track, first, last, total, body).headers.contains(("Accept-Ranges"@, "bytes"@)),
        file_answer(track, first, last, total, body).headers.contains(
            (
                "Content-Range"@,
                "bytes "@ + decimal(first as nat) + "-"@ + decimal(last as nat) + "/"@ + decimal(total as nat),
            ),
        ),
        file_answer(track, first, last, total, body).headers.contains(
            ("Content-Type"@, served_type(container(track), Seq::empty())),
        ),
        file_answer(track, first, last, total, body).content_range is None,
        unsatisfied(total).status == 416,
        unsatisfied(total).body.len() == 0,
        unsatisfied(total).headers.contains(("Content-Range"@, "bytes */"@ + decimal(total as nat))),
{
    let answer = file_answer(track, first, last, total, body);
    assert(answer.headers[0] == ("Accept-Ranges"@, "bytes"@));
    assert(answer.headers[1] == ("Content-Type"@, served_type(container(track), Seq::empty())));
    assert(answer.headers[2] == ("Content-Length"@, decimal(body.len())));
    assert(answer.headers[3].0 == "Content-Range"@);
    assert(unsatisfied(total).headers[0] == ("Content-Range"@, "bytes */"@ + decimal(total as nat)));
}

/// The answer with a picture is the picture itself, under its type; where there
/// is none, the answer says so.
pub proof fn pictures_are_answered(artwork: ArtworkView)
    ensures
        artwork_answer(Some(artwork)).status == 200,
        artwork_answer(Some(artwork)).body == artwork.bytes,
        artwork_answer(Some(artwork)).headers.contains(("Content-Type"@, artwork.content_type)),
        artwork_answer(Some(artwork)).headers.contains(("Content-Length"@, decimal(artwork.bytes.len()))),
        artwork_answer(None).status == 404,
        artwork_answer(None).body.len() == 0,
{
    let answer = artwork_answer(Some(artwork));
    assert(answer.headers[0] == ("Content-Type"@, artwork.content_type));
    assert(answer.headers[1] == ("Content-Length"@, decimal(artwork.bytes.len())));
}

/// A path leads to what is kept under the name that follows its slashes, and to
/// nothing where nothing is kept under it.
pub proof fn paths_lead_to_what_is_kept<T>(shelf: ShelfView<T>, name: Seq<char>)
    requires
        !text::begins(name, "/"@),
    ensures
        shelf.kept.dom().contains(name) ==> kept_at(shelf, "/"@ + name) == Some(shelf.kept[name]) && kept_at(shelf, name)
            == Some(shelf.kept[name]),
        !shelf.kept.dom().contains(name) ==> kept_at(shelf, "/"@ + name) is None && kept_at(shelf, name) is None,
{
    reveal_strlit("/");
    text::marks_are_stripped("/"@, name);
}

// ---------------------------------------------------------------------------
// Streams
// ---------------------------------------------------------------------------

/// The headers that are sent along when the stream of a track is fetched, in
/// the order in which they are kept with it: those whose values are texts.
pub open spec fn texts_among(fields: Seq<(Seq<char>, JsonView)>) -> Seq<(Seq<char>, Seq<char>)>
    decreases fields.len(),
{
    if fields.len() == 0 {
        Seq::empty()
    } else {
        match fields.last().1 {
            JsonView::Text(value) => texts_among(fields.drop_last()).push((fields.last().0, value)),
            _ => texts_among(fields.drop_last()),
        }
    }
}

/// The headers that are sent along when the stream of a track is fetched.
pub open spec fn stream_headers_of(track: TrackView) -> Seq<(Seq<char>, Seq<char>)> {
    match track.adapter_payload {
        Some(payload) => match as_record(field(payload, "downloadHeaders"@)) {
            Some(fields) => texts_among(fields),
            None => Seq::empty(),
        },
        None => Seq::empty(),
    }
}

proof fn lemma_texts_of_pair(first: (Seq<char>, Seq<char>), second: (Seq<char>, Seq<char>))
    ensures
        texts_among(seq![(first.0, JsonView::Text(first.1))]) == seq![first],
        texts_among(seq![(first.0, JsonView::Text(first.1)), (second.0, JsonView::Text(second.1))]) == seq![
            first,
            second,
        ],
{
    let one = seq![(first.0, JsonView::Text(first.1))];
    let two = seq![(first.0, JsonView::Text(first.1)), (second.0, JsonView::Text(second.1))];
    reveal_with_fuel(texts_among, 3);
    assert(one.drop_last() =~= Seq::<(Seq<char>, JsonView)>::empty());
    assert(one.last() == (first.0, JsonView::Text(first.1)));
    assert(texts_among(one) =~= seq![first]);
    assert(two.drop_last() =~= one);
    assert(two.last() == (second.0, JsonView::Text(second.1)));
    assert(texts_among(two) =~= seq![first, second]);
}

/// The headers of a payload that keeps one header or two.
pub proof fn kept_headers_are_sent(
    track: TrackView,
    payload: JsonView,
    first: (Seq<char>, Seq<char>),
    second: (Seq<char>, Seq<char>),
)
    requires
        track.adapter_payload == Some(payload),
    ensures
        field(payload, "downloadHeaders"@) == Some(JsonView::Record(seq![(first.0, JsonView::Text(first.1))]))
            ==> stream_headers_of(track) == seq![first],
        field(payload, "downloadHeaders"@) == Some(
            JsonView::Record(seq![(first.0, JsonView::Text(first.1)), (second.0, JsonView::Text(second.1))]),
        ) ==> stream_headers_of(track) == seq![first, second],
{
    lemma_texts_of_pair(first, second);
}

/// The headers that are sent along when the stream of a track is fetched.
pub fn stream_headers(track: &Track) -> (result: Vec<(String, String)>)
    ensures
        pairs_view(result@) == stream_headers_of(track@),
{
    let mut headers = no_pairs();
    if let Some(payload) = &track.adapter_payload {
        if let Some(value) = payload.get("downloadHeaders") {
            if let Some(fields) = value.as_object() {
                let ghost all = crate::json::fields_view(fields@);
                let mut i: usize = 0;
                assert(all.take(0).len() == 0);
                while i < fields.len()
                    invariant
                        i <= fields@.len(),
                        all == crate::json::fields_view(fields@),
                        pairs_view(headers@) == texts_among(all.take(i as int)),
                    decreases fields.len() - i,
                {
                    assert(all.take(i + 1).drop_last() =~= all.take(i as int));
                    assert(all.take(i + 1).last() == (fields@[i as int].0@, fields@[i as int].1@));
                    if let Some(words) = fields[i].1.as_str() {
                        add_pair(&mut headers, fields[i].0.as_str(), words);
                    }
                    i += 1;
                }
                assert(all.take(i as int) =~= all);
            }
        }
    }
    headers
}

/// Every header that is kept with a track as a text is sent, in the order in
/// which they are kept, and nothing else is.
pub proof fn all_kept_texts_are_sent(
    track: TrackView,
    payload: JsonView,
    fields: Seq<(Seq<char>, JsonView)>,
    name: Seq<char>,
    value: JsonView,
)
    ensures
        track.adapter_payload == Some(payload) && field(payload, "downloadHeaders"@) == Some(JsonView::Record(fields))
            ==> stream_headers_of(track) == texts_among(fields),
        track.adapter_payload is None ==> stream_headers_of(track).len() == 0,
        track.adapter_payload == Some(payload) && field(payload, "downloadHeaders"@) is None ==> stream_headers_of(
            track,
        ).len() == 0,
        value matches JsonView::Text(words) ==> texts_among(fields.push((name, value))) == texts_among(fields).push(
            (name, words),
        ),
        !(value is Text) ==> texts_among(fields.push((name, value))) == texts_among(fields),
        texts_among(Seq::empty()).len() == 0,
{
    assert(fields.push((name, value)).drop_last() =~= fields);
}

/// The range that is asked of a source where the player asks for none.
pub open spec fn opening_of(asked: bool) -> Option<Seq<char>> {
    if asked {
        None
    } else {
        Some("bytes=0-65535"@)
    }
}

/// Where the player asks for no range, a source is asked for as much as a local
/// file would be answered with; otherwise for what the player asks for.
pub proof fn streams_begin_like_files(total: u64)
    requires
        total > 65536,
    ensures
        opening_of(false) matches Some(range) && granted_range(Some(range), total) == granted_range(None, total),
        opening_of(true) is None,
{
    reveal_strlit("bytes=0-65535");
    reveal_strlit("bytes=");
    let start = seq!['0'];
    let end = seq!['6', '5', '5', '3', '5'];
    let none = Seq::<char>::empty();
    assert("bytes=0-65535"@ =~= range_header(none, start, end, None, none));
    lemma_range_header(none, start, end, None, none);
    assert(number_of(start) == Some(0u64)) by {
        reveal_with_fuel(text::digits_value, 2);
        assert(text::all_digits(start));
    }
    assert(number_of(end) == Some(65535u64)) by {
        reveal_with_fuel(text::digits_value, 6);
        assert(text::all_digits(end));
        assert(end.drop_last() =~= seq!['6', '5', '5', '3']);
        assert(end.drop_last().drop_last() =~= seq!['6', '5', '5']);
        assert(end.drop_last().drop_last().drop_last() =~= seq!['6', '5']);
        assert(end.drop_last().drop_last().drop_last().drop_last() =~= seq!['6']);
    }
}

/// The range that is asked of a source where the player asks for none: enough
/// to begin with, so that playback never waits for a whole file.
pub fn opening_range(asked: bool) -> (result: Option<&'static str>)
    ensures
        opt_str(result) == opening_of(asked),
{
    if asked {
        None
    } else {
        Some("bytes=0-65535")
    }
}

/// The answer with what a source sent. A source that sends a document in place
/// of audio, or nothing, is a bad gateway.
pub open spec fn stream_answer(
    track: TrackView,
    status: u16,
    kind: Option<Seq<char>>,
    content_range: Option<Seq<u8>>,
    body: Option<Seq<u8>>,
) -> ReplyView {
    match body {
        Some(body) => if is_document_type(crate::media::type_or_empty(kind)) {
            bare(502)
        } else {
            ReplyView {
                status,
                headers: seq![
                    ("Accept-Ranges"@, "bytes"@),
                    ("Content-Type"@, served_type(container(track), bare_type(kind))),
                    ("Content-Length"@, decimal(body.len())),
                ],
                content_range,
                body,
            }
        },
        None => bare(502),
    }
}

/// Answers with what a source sent, given its content type, its `Content-Range`
/// and its body; `None` where the body could not be read.
pub fn source_reply(
    track: &Track,
    status: u16,
    kind: Option<&str>,
    content_range: Option<Vec<u8>>,
    body: Option<Vec<u8>>,
) -> (result: Reply)
    ensures
        result@ == stream_answer(
            track@,
            status,
            opt_str(kind),
            match content_range {
                Some(range) => Some(range@),
                None => None,
            },
            match body {
                Some(body) => Some(body@),
                None => None,
            },
        ),
{
    if is_document(kind) {
        return bare_reply(502);
    }
    match body {
        Some(body) => {
            let mut headers = no_pairs();
            add_pair(&mut headers, "Accept-Ranges", "bytes");
            add_pair(&mut headers, "Content-Type", stream_content_type(track, kind).as_str());
            add_pair(&mut headers, "Content-Length", text::number_text(body.len() as u64).as_str());
            Reply { status, headers, content_range, body }
        },
        None => bare_reply(502),
    }
}

/// Answers with what a source sent; `None` where its body could not be read.
pub fn stream_reply(
    track: &Track,
    status: u16,
    source_headers: &reqwest::header::HeaderMap,
    body: Option<Vec<u8>>,
) -> (result: Reply)
    ensures
        result@ == stream_answer(
            track@,
            status,
            headers::content_type(*source_headers),
            headers::raw_header(*source_headers, "content-range"@),
            match body {
                Some(body) => Some(body@),
                None => None,
            },
        ),
{
    let kind = headers::content_type_of(source_headers);
    source_reply(track, status, kind, headers::header_value(source_headers, "content-range"), body)
}

/// A page that a source sends in place of audio never reaches the player as
/// audio.
pub proof fn documents_are_refused(
    track: TrackView,
    status: u16,
    kind: Seq<char>,
    content_range: Option<Seq<u8>>,
    body: Option<Seq<u8>>,
)
    requires
        is_document_type(text::lowered(kind)),
    ensures
        stream_answer(track, status, Some(kind), content_range, body) == bare(502),
{
}

/// What a source sends as audio reaches the player as it came: the same bytes,
/// the same status, and the range that the source told.
pub proof fn streams_are_passed_on(
    track: TrackView,
    status: u16,
    kind: Option<Seq<char>>,
    content_range: Option<Seq<u8>>,
    body: Seq<u8>,
)
    requires
        !is_document_type(crate::media::type_or_empty(kind)),
    ensures
        stream_answer(track, status, kind, content_range, Some(body)).body == body,
        stream_answer(track, status, kind, content_range, Some(body)).status == status,
        stream_answer(track, status, kind, content_range, Some(body)).content_range == content_range,
        stream_answer(track, status, kind, content_range, Some(body)).headers.contains(
            ("Content-Length"@, decimal(body.len())),
        ),
        stream_answer(track, status, kind, content_range, Some(body)).headers.contains(
            ("Content-Type"@, served_type(container(track), bare_type(kind))),
        ),
        stream_answer(track, status, kind, content_range, None).status == 502,
{
    let answer = stream_answer(track, status, kind, content_range, Some(body));
    assert(answer.headers[1].0 == "Content-Type"@);
    assert(answer.headers[2] == ("Content-Length"@, decimal(body.len())));
}

// ---------------------------------------------------------------------------
// Sessions
// ---------------------------------------------------------------------------

/// The track that the player gets: its stream is reached through the name that
/// it is kept under.
pub open spec fn proxied(track: TrackView, token: Seq<char>) -> TrackView {
    TrackView { audio_url: "music://localhost/"@ + token, ..track }
}

/// The player never gets the address of a source: only the address of a track
/// changes, to one of the player's own that holds its name.
pub proof fn only_the_address_changes(track: TrackView, token: Seq<char>)
    ensures
        text::without_prefix(proxied(track, token).audio_url, "music://localhost/"@) == Some(token),
        proxied(track, token) == (TrackView { audio_url: proxied(track, token).audio_url, ..track }),
{
    text::prefixes_are_taken_off("music://localhost/"@, token, Seq::empty());
}

/// Keeps a resolved track for playback and returns the track for the player.
pub fn prepare_playback(shelf: &mut Shelf<Track>, resolved: Track) -> (result: Track)
    ensures
        result@ == proxied(resolved@, decimal(old(shelf)@.next as nat)),
        final(shelf)@.next == (if old(shelf)@.next < u64::MAX {
            (old(shelf)@.next + 1) as u64
        } else {
            0
        }),
        final(shelf)@.kept == old(shelf)@.kept.insert(decimal(old(shelf)@.next as nat), resolved),
{
    let mut track = resolved.clone();
    let token = shelf.register(resolved);
    track.audio_url = concat("music://localhost/", token.as_str());
    track
}

proof fn lemma_no_slash(value: nat)
    ensures
        decimal(value).len() > 0,
        forall|i: int| 0 <= i < decimal(value).len() ==> text::is_digit(#[trigger] decimal(value)[i]),
    decreases value,
{
    if value >= 10 {
        lemma_no_slash(value / 10);
    }
}

/// The address that the player gets leads back to the track that was kept: its
/// path, a slash and the name, finds exactly this track.
pub proof fn prepared_track_is_found<T>(shelf: ShelfView<T>, next: u64, thing: T)
    requires
        shelf.kept.dom().contains(decimal(next as nat)),
        shelf.kept[decimal(next as nat)] == thing,
    ensures
        kept_at(shelf, "/"@ + decimal(next as nat)) == Some(thing),
{
    let token = decimal(next as nat);
    let path = "/"@ + token;
    lemma_no_slash(next as nat);
    reveal_strlit("/");
    assert("/"@.len() == 1 && "/"@[0] == '/');
    assert(text::begins(path, "/"@)) by {
        assert(path.take(1) =~= "/"@);
        assert(path.subrange(0, 1) =~= "/"@);
    }
    assert(path.skip(1) =~= token);
    assert(!text::begins(token, "/"@)) by {
        assert(token[0] != '/');
        assert(token.take(1)[0] == token[0]);
        assert(token.subrange(0, 1)[0] == token[0]);
    }
    reveal_with_fuel(stripped_start, 3);
    assert(stripped_start(path, "/"@) == token);
}

/// What a scan found: the songs with their pictures.
pub open spec fn scanned_view(scanned: Seq<(Track, Option<LocalArtwork>)>) -> Seq<(TrackView, Option<ArtworkView>)> {
    Seq::new(scanned.len(), |i: int| (scanned[i].0@, crate::artwork::opt_artwork(scanned[i].1)))
}

/// The titles by which songs are sorted: in small letters.
pub open spec fn title_keys(scanned: Seq<(TrackView, Option<ArtworkView>)>) -> Seq<Seq<char>> {
    Seq::new(scanned.len(), |i: int| in_small_letters(scanned[i].0.title))
}

/// Songs in the order of their titles, whatever the case of their letters; of
/// equal titles the one that was found first.
pub open spec fn by_title(scanned: Seq<(TrackView, Option<ArtworkView>)>) -> Seq<(TrackView, Option<ArtworkView>)> {
    arranged(scanned, sorted_places(title_keys(scanned), alphabetical(), scanned.len()))
}

/// Puts songs in the order of their titles.
pub fn sort_by_title(scanned: Vec<(Track, Option<LocalArtwork>)>) -> (result: Vec<(Track, Option<LocalArtwork>)>)
    ensures
        scanned_view(result@) == by_title(scanned_view(scanned@)),
{
    let ghost all = scanned_view(scanned@);
    let mut keys: Vec<String> = Vec::new();
    let mut i: usize = 0;
    while i < scanned.len()
        invariant
            i <= scanned@.len(),
            all == scanned_view(scanned@),
            keys@.len() == i,
            forall|j: int| 0 <= j < i ==> (#[trigger] keys@[j])@ == title_keys(all)[j],
        decreases scanned.len() - i,
    {
        keys.push(text::to_lower(scanned[i].0.title.as_str()));
        i += 1;
    }
    assert(texts(keys@) =~= title_keys(all));
    let places = order::sort_alphabetical(&keys);
    proof {
        order::alphabetical_sorts();
        order::sorting_is_stable(title_keys(all), alphabetical());
    }
    let result = order::arrange(scanned, &places);
    assert(scanned_view(result@) =~= by_title(all));
    result
}

/// No song comes behind one whose title is later in the order of titles, and
/// every song that was found comes once.
pub proof fn songs_come_in_the_order_of_titles(scanned: Seq<(TrackView, Option<ArtworkView>)>, i: int, j: int)
    requires
        scanned.len() <= usize::MAX,
        0 <= i < j < scanned.len(),
    ensures
        text::not_after(in_small_letters(by_title(scanned)[i].0.title), in_small_letters(by_title(scanned)[j].0.title)),
        order::lists_all(sorted_places(title_keys(scanned), alphabetical(), scanned.len()), scanned.len()),
{
    order::alphabetical_sorts();
    order::sorting_is_stable(title_keys(scanned), alphabetical());
    let places = sorted_places(title_keys(scanned), alphabetical(), scanned.len());
    assert(!alphabetical()(title_keys(scanned)[places[j] as int], title_keys(scanned)[places[i] as int]));
}

/// What a scan leaves: the songs for the player, and the pictures that are kept
/// for them.
pub open spec fn shown(
    scanned: Seq<(TrackView, Option<ArtworkView>)>,
    next: u64,
) -> (Seq<TrackView>, Map<Seq<char>, ArtworkView>, u64)
    decreases scanned.len(),
{
    if scanned.len() == 0 {
        (Seq::empty(), Map::empty(), next)
    } else {
        let (tracks, kept, token) = shown(scanned.drop_last(), next);
        let (track, artwork) = scanned.last();
        match artwork {
            Some(artwork) => (
                tracks.push(TrackView { artwork_url: "localart://localhost/"@ + decimal(token as nat), ..track }),
                kept.insert(decimal(token as nat), artwork),
                if token < u64::MAX {
                    (token + 1) as u64
                } else {
                    0
                },
            ),
            None => (tracks.push(track), kept, token),
        }
    }
}

proof fn lemma_shown_counts(scanned: Seq<(TrackView, Option<ArtworkView>)>, next: u64)
    requires
        next + scanned.len() <= u64::MAX,
    ensures
        next <= shown(scanned, next).2 <= next + scanned.len(),
        shown(scanned, next).0.len() == scanned.len(),
    decreases scanned.len(),
{
    if scanned.len() > 0 {
        lemma_shown_counts(scanned.drop_last(), next);
    }
}

/// Every song that a scan found with a picture has the address of its own
/// picture, as long as names do not begin to count from zero again.
pub proof fn shown_pictures_are_found(scanned: Seq<(TrackView, Option<ArtworkView>)>, next: u64, i: int)
    requires
        next + scanned.len() <= u64::MAX,
        0 <= i < scanned.len(),
        scanned[i].1 is Some,
    ensures
        exists|token: u64|
            next <= token < shown(scanned, next).2 && shown(scanned, next).0[i].artwork_url == "localart://localhost/"@
                + #[trigger] decimal(token as nat) && shown(scanned, next).1.dom().contains(decimal(token as nat))
                && shown(scanned, next).1[decimal(token as nat)] == scanned[i].1->0,
    decreases scanned.len(),
{
    let rest = scanned.drop_last();
    let last = scanned.last();
    let (tracks, kept, count) = shown(rest, next);
    lemma_shown_counts(rest, next);
    lemma_shown_counts(scanned, next);
    if i == scanned.len() - 1 {
        assert(decimal(count as nat) == decimal(count as nat));
    } else {
        assert(rest[i] == scanned[i]);
        shown_pictures_are_found(rest, next, i);
        let token = choose|token: u64|
            next <= token < count && tracks[i].artwork_url == "localart://localhost/"@ + #[trigger] decimal(
                token as nat,
            ) && kept.dom().contains(decimal(token as nat)) && kept[decimal(token as nat)] == rest[i].1->0;
        crate::shelf::counted_names_differ(token, count);
        assert(shown(scanned, next).0[i] == tracks[i]);
        assert(decimal(token as nat) == decimal(token as nat));
    }
}

/// A scan shows every song in its place, and changes nothing of it but the
/// address of its picture; a song without a picture stays as it is.
pub proof fn scanned_songs_are_shown(scanned: Seq<(TrackView, Option<ArtworkView>)>, next: u64)
    ensures
        shown(scanned, next).0.len() == scanned.len(),
        forall|i: int|
            0 <= i < scanned.len() ==> (#[trigger] shown(scanned, next).0[i]) == (TrackView {
                artwork_url: shown(scanned, next).0[i].artwork_url,
                ..scanned[i].0
            }),
        forall|i: int|
            0 <= i < scanned.len() && scanned[i].1 is None ==> #[trigger] shown(scanned, next).0[i] == scanned[i].0,
    decreases scanned.len(),
{
    if scanned.len() > 0 {
        let rest = scanned.drop_last();
        scanned_songs_are_shown(rest, next);
        assert forall|i: int| 0 <= i < scanned.len() implies (#[trigger] shown(scanned, next).0[i]) == (TrackView {
            artwork_url: shown(scanned, next).0[i].artwork_url,
            ..scanned[i].0
        }) && (scanned[i].1 is None ==> shown(scanned, next).0[i] == scanned[i].0) by {
            if i < rest.len() {
                assert(rest[i] == scanned[i]);
                assert(shown(scanned, next).0[i] == shown(rest, next).0[i]);
            }
        }
    }
}

/// The pictures on a shelf, mathematically.
pub open spec fn pictures_on(shelf: ShelfView<LocalArtwork>) -> Map<Seq<char>, ArtworkView> {
    shelf.kept.map_values(|artwork: LocalArtwork| artwork@)
}

/// Ends a scan: forgets the pictures of the scan before, keeps those of this
/// one, and returns the songs with the addresses of their pictures.
pub fn finish_scan(shelf: &mut Shelf<LocalArtwork>, scanned: Vec<(Track, Option<LocalArtwork>)>) -> (result: Vec<Track>)
    ensures
        ({
            let (tracks, kept, next) = shown(scanned_view(scanned@), old(shelf)@.next);
            &&& tracks_view(result@) == tracks
            &&& pictures_on(final(shelf)@) == kept
            &&& final(shelf)@.next == next
        }),
{
    let ghost all = scanned_view(scanned@);
    let ghost start = shelf@.next;
    shelf.clear();
    let mut tracks: Vec<Track> = Vec::new();
    assert(pictures_on(shelf@) =~= Map::<Seq<char>, ArtworkView>::empty());
    assert(tracks_view(tracks@) =~= Seq::<TrackView>::empty());
    assert(all.take(0).len() == 0);
    let ghost entries = scanned@;
    for (found, artwork) in iter: scanned
        invariant
            iter.seq() == entries,
            all == scanned_view(entries),
            tracks_view(tracks@) == shown(all.take(iter.index()), start).0,
            pictures_on(shelf@) == shown(all.take(iter.index()), start).1,
            shelf@.next == shown(all.take(iter.index()), start).2,
    {
        let ghost i = iter.index();
        assert(all.take(i + 1).drop_last() =~= all.take(i));
        assert(all.take(i + 1).last() == all[i]);
        let mut track = found;
        let ghost listed = tracks@;
        let ghost pictures = shelf@;
        if let Some(image) = artwork {
            let ghost picture = image@;
            let token = shelf.register(image);
            track.artwork_url = concat("localart://localhost/", token.as_str());
            assert(pictures_on(shelf@) =~= pictures_on(pictures).insert(token@, picture));
        }
        let ghost shown_track = track@;
        tracks.push(track);
        assert(tracks_view(tracks@) =~= tracks_view(listed).push(shown_track));
    }
    assert(all.take(entries.len() as int) =~= all);
    tracks
}

} // verus!
