//! The catalogue's own types: tracks and the descriptions of the sources.
use crate::json::{opt_json, Json, JsonView, Number};
use crate::text::{self, contains_text, decimal, is_blank, lowered, number_of, opt, trimmed};
use vstd::prelude::*;

verus! {

/// A song, as a source or the local scan describes it. It can be played once
/// `audio_url` is filled in.
#[derive(Debug)]
pub struct Track {
    pub id: String,
    pub source: String,
    pub title: String,
    pub artist: String,
    pub album: String,
    pub artwork_url: String,
    pub audio_url: String,
    pub duration_ms: u64,
    pub format: Option<String>,
    pub quality: Option<String>,
    pub adapter_payload: Option<Json>,
}

/// The mathematical value of a [`Track`].
#[verifier::ext_equal]
pub struct TrackView {
    pub id: Seq<char>,
    pub source: Seq<char>,
    pub title: Seq<char>,
    pub artist: Seq<char>,
    pub album: Seq<char>,
    pub artwork_url: Seq<char>,
    pub audio_url: Seq<char>,
    pub duration_ms: u64,
    pub format: Option<Seq<char>>,
    pub quality: Option<Seq<char>>,
    pub adapter_payload: Option<JsonView>,
}

impl View for Track {
    type V = TrackView;

    open spec fn view(&self) -> TrackView {
        TrackView {
            id: self.id@,
            source: self.source@,
            title: self.title@,
            artist: self.artist@,
            album: self.album@,
            artwork_url: self.artwork_url@,
            audio_url: self.audio_url@,
            duration_ms: self.duration_ms,
            format: opt(self.format),
            quality: opt(self.quality),
            adapter_payload: opt_json(self.adapter_payload),
        }
    }
}

/// An optional track, mathematically.
pub open spec fn opt_track(track: Option<Track>) -> Option<TrackView> {
    match track {
        Some(track) => Some(track@),
        None => None,
    }
}

/// A list of tracks, mathematically.
pub open spec fn tracks_view(tracks: Seq<Track>) -> Seq<TrackView> {
    Seq::new(tracks.len(), |i: int| tracks[i]@)
}

/// A copy of an optional text.
pub fn copy_text(text: &Option<String>) -> (result: Option<String>)
    ensures
        opt(result) == opt(*text),
{
    match text {
        Some(text) => Some(text.clone()),
        None => None,
    }
}

impl Clone for Track {
    fn clone(&self) -> (result: Track)
        ensures
            result@ == self@,
    {
        Track {
            id: self.id.clone(),
            source: self.source.clone(),
            title: self.title.clone(),
            artist: self.artist.clone(),
            album: self.album.clone(),
            artwork_url: self.artwork_url.clone(),
            audio_url: self.audio_url.clone(),
            duration_ms: self.duration_ms,
            format: copy_text(&self.format),
            quality: copy_text(&self.quality),
            adapter_payload: match &self.adapter_payload {
                Some(payload) => Some(payload.clone()),
                None => None,
            },
        }
    }
}

/// What a source is called and what it can do.
#[derive(Debug, Clone)]
pub struct SourceDescriptor {
    pub id: &'static str,
    pub name: &'static str,
    pub capabilities: &'static [&'static str],
    pub enabled: bool,
}

/// The mathematical value of a [`SourceDescriptor`].
#[verifier::ext_equal]
pub struct DescriptorView {
    pub id: Seq<char>,
    pub name: Seq<char>,
    pub capabilities: Seq<Seq<char>>,
    pub enabled: bool,
}

impl View for SourceDescriptor {
    type V = DescriptorView;

    open spec fn view(&self) -> DescriptorView {
        DescriptorView {
            id: self.id@,
            name: self.name@,
            capabilities: Seq::new(self.capabilities@.len(), |i: int| self.capabilities@[i]@),
            enabled: self.enabled,
        }
    }
}

/// The label of the quality that the address of a stream gives away.
pub open spec fn quality_in_url(url: Seq<char>) -> Seq<char> {
    let value = lowered(url);
    if contains_text(value, "flac"@) || contains_text(value, "lossless"@) {
        "无损"@
    } else if contains_text(value, "320"@) {
        "320K"@
    } else if contains_text(value, "128"@) || contains_text(value, "120"@) {
        "128K"@
    } else {
        Seq::empty()
    }
}

/// Guesses the quality of a stream from its address; empty where the address
/// says nothing.
pub fn quality_from_url(url: &str) -> (result: String)
    ensures
        result@ == quality_in_url(url@),
{
    let value = text::lower(url);
    if text::contains(value.as_str(), "flac") || text::contains(value.as_str(), "lossless") {
        "无损".to_owned()
    } else if text::contains(value.as_str(), "320") {
        "320K".to_owned()
    } else if text::contains(value.as_str(), "128") || text::contains(value.as_str(), "120") {
        "128K".to_owned()
    } else {
        String::new()
    }
}

/// The whole number that a source means by a value: a number as it is, a
/// negative one as zero, a text as the number it spells or zero, nothing as
/// zero. Any other value is no number.
pub open spec fn loose_number(value: JsonView) -> Option<u64> {
    match value {
        JsonView::Null => Some(0),
        JsonView::Number(Number::Unsigned(number)) => Some(number),
        JsonView::Number(Number::Negative(number)) => Some(
            if number < 0 {
                0
            } else {
                number as u64
            },
        ),
        JsonView::Text(text) => Some(
            match number_of(trimmed(text)) {
                Some(number) => number,
                None => 0,
            },
        ),
        _ => None,
    }
}

/// Reads a `u64` that a source may send as a JSON number or as a numeric text
/// (some toggle between the two), so that a text never drops the whole track.
/// `None` where the value is neither, nor null.
pub fn de_u64_loose(value: &Json) -> (result: Option<u64>)
    ensures
        result == loose_number(value@),
{
    match value {
        Json::Null => Some(0),
        Json::Number(Number::Unsigned(number)) => Some(*number),
        Json::Number(Number::Negative(number)) => if *number < 0 {
            Some(0)
        } else {
            Some(*number as u64)
        },
        Json::Text(text) => match text::parse_number(text::trim(text.as_str())) {
            Some(number) => Some(number),
            None => Some(0),
        },
        _ => None,
    }
}

/// The quality that an address gives away: lossless where it says so, in any
/// case of its letters, else the rate that stands in it.
pub proof fn addresses_give_away_their_quality(lead: Seq<char>, trail: Seq<char>, url: Seq<char>)
    ensures
        quality_in_url(lead + "flac"@ + trail) == "无损"@,
        quality_in_url(lead + "lossless"@ + trail) == "无损"@,
        ({
            let small = lowered(url);
            let lossless = contains_text(small, "flac"@) || contains_text(small, "lossless"@);
            &&& !lossless && contains_text(small, "320"@) ==> quality_in_url(url) == "320K"@
            &&& !lossless && !contains_text(small, "320"@) && (contains_text(small, "128"@) || contains_text(
                small,
                "120"@,
            )) ==> quality_in_url(url) == "128K"@
            &&& !lossless && !contains_text(small, "320"@) && !contains_text(small, "128"@) && !contains_text(
                small,
                "120"@,
            ) ==> quality_in_url(url).len() == 0
        }),
{
    reveal_strlit("flac");
    reveal_strlit("lossless");
    let a = lowered(lead);
    let b = lowered(trail);
    assert(lowered(lead + "flac"@ + trail) =~= a + "flac"@ + b);
    assert(lowered(lead + "lossless"@ + trail) =~= a + "lossless"@ + b);
    text::parts_are_found(a, "flac"@, b);
    text::parts_are_found(a, "lossless"@, b);
}

/// A number is read the same whether it comes as a number or as a text, with
/// white space around it or without; what is no number counts as zero.
pub proof fn numbers_are_read_either_way(number: u64, lead: Seq<char>, trail: Seq<char>, below: i64)
    requires
        is_blank(lead),
        is_blank(trail),
        below < 0,
    ensures
        loose_number(JsonView::Number(Number::Unsigned(number))) == Some(number),
        loose_number(JsonView::Text(lead + decimal(number as nat) + trail)) == Some(number),
        loose_number(JsonView::Text(lead)) == Some(0u64),
        loose_number(JsonView::Null) == Some(0u64),
        loose_number(JsonView::Number(Number::Negative(below))) == Some(0u64),
        loose_number(JsonView::Bool(true)) is None,
        loose_number(JsonView::List(Seq::empty())) is None,
{
    text::decimal_reads_back(number);
    text::decimal_starts_plainly(number);
    let digits = decimal(number as nat);
    assert(!text::is_space(digits[0]) && !text::is_space(digits[digits.len() - 1]));
    text::trimming_takes_white_space_alone(lead, digits, trail);
    text::blank_iff_trimmed_empty(lead);
}

} // verus!
