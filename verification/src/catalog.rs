//! Searching the sources, and making what was found playable.
use crate::domain::{tracks_view, Track, TrackView};
use crate::local::{local_path, path_of};
use crate::sources::{self, all_sources, source_id, source_name, source_with, Source};
use crate::text::{self, concat, is_blank, joined, opt_pair, texts, trimmed};
use vstd::prelude::*;
use vstd::string::*;

verus! {

// ---------------------------------------------------------------------------
// Searching
// ---------------------------------------------------------------------------

/// What a search does.
#[derive(Debug)]
pub enum SearchPlan {
    /// Nothing: there is nothing to search for.
    Nothing,
    /// Nothing: none of the sources that were selected is known.
    Refused(String),
    /// Ask these sources for this query, for so many songs of this page.
    Ask { query: String, sources: Vec<Source>, limit: usize, page: u32 },
}

/// The mathematical value of a [`SearchPlan`].
#[verifier::ext_equal]
pub enum PlanView {
    Nothing,
    Refused(Seq<char>),
    Ask { query: Seq<char>, sources: Seq<Source>, limit: nat, page: u32 },
}

impl View for SearchPlan {
    type V = PlanView;

    open spec fn view(&self) -> PlanView {
        match *self {
            SearchPlan::Nothing => PlanView::Nothing,
            SearchPlan::Refused(message) => PlanView::Refused(message@),
            SearchPlan::Ask { query, sources, limit, page } => PlanView::Ask {
                query: query@,
                sources: sources@,
                limit: limit as nat,
                page,
            },
        }
    }
}

/// A source takes part in a search where it was selected, or where none was.
pub open spec fn takes_part(source: Source, selected: Seq<Seq<char>>) -> bool {
    selected.len() == 0 || selected.contains(source_id(source))
}

/// The sources that take part, in their order.
pub open spec fn taking_part(sources: Seq<Source>, selected: Seq<Seq<char>>) -> Seq<Source>
    decreases sources.len(),
{
    if sources.len() == 0 {
        Seq::empty()
    } else if takes_part(sources.last(), selected) {
        taking_part(sources.drop_last(), selected).push(sources.last())
    } else {
        taking_part(sources.drop_last(), selected)
    }
}

/// What a search does: the query counts without white space around it, and at
/// least one song of the first page is asked for.
pub open spec fn plan_of(query: Seq<char>, selected: Seq<Seq<char>>, limit: u32, page: u32) -> PlanView {
    if is_blank(query) {
        PlanView::Nothing
    } else if taking_part(all_sources(), selected).len() == 0 {
        PlanView::Refused("没有选中已实现的 Rust 音源适配器"@)
    } else {
        PlanView::Ask {
            query: trimmed(query),
            sources: taking_part(all_sources(), selected),
            limit: if limit == 0 {
                1
            } else {
                limit as nat
            },
            page: if page == 0 {
                1
            } else {
                page
            },
        }
    }
}

/// Tells whether a source was selected.
fn is_selected(source: Source, selected: &Vec<String>) -> (result: bool)
    ensures
        result == takes_part(source, texts(selected@)),
{
    let ghost names = texts(selected@);
    if selected.len() == 0 {
        return true;
    }
    let id = sources::descriptor(source).id;
    let mut i: usize = 0;
    while i < selected.len()
        invariant
            i <= selected@.len(),
            selected@.len() > 0,
            names == texts(selected@),
            id@ == source_id(source),
            forall|j: int| 0 <= j < i ==> #[trigger] names[j] != id@,
        decreases selected.len() - i,
    {
        if text::same(selected[i].as_str(), id) {
            assert(names[i as int] == id@);
            return true;
        }
        i += 1;
    }
    false
}

/// Decides what a search does.
pub fn plan_search(query: &str, selected: &Vec<String>, limit: u32, page: u32) -> (result: SearchPlan)
    ensures
        result@ == plan_of(query@, texts(selected@), limit, page),
{
    if text::blank(query) {
        return SearchPlan::Nothing;
    }
    let all = sources::registry();
    let mut chosen: Vec<Source> = Vec::new();
    let mut i: usize = 0;
    assert(all@.take(0).len() == 0);
    while i < all.len()
        invariant
            i <= all@.len(),
            chosen@ == taking_part(all@.take(i as int), texts(selected@)),
        decreases all.len() - i,
    {
        assert(all@.take(i + 1).drop_last() =~= all@.take(i as int));
        assert(all@.take(i + 1).last() == all@[i as int]);
        if is_selected(all[i], selected) {
            chosen.push(all[i]);
        }
        i += 1;
    }
    assert(all@.take(i as int) =~= all@);
    if chosen.len() == 0 {
        return SearchPlan::Refused("没有选中已实现的 Rust 音源适配器".to_owned());
    }
    SearchPlan::Ask {
        query: text::trim(query).to_owned(),
        sources: chosen,
        limit: if limit == 0 {
            1
        } else {
            limit as usize
        },
        page: if page == 0 {
            1
        } else {
            page
        },
    }
}

/// A search without a selection asks every source.
pub proof fn no_selection_asks_all(query: Seq<char>, limit: u32, page: u32)
    requires
        !is_blank(query),
    ensures
        plan_of(query, Seq::empty(), limit, page) matches PlanView::Ask { sources, .. } && sources == all_sources(),
{
    let none = Seq::<Seq<char>>::empty();
    let all = all_sources();
    reveal_with_fuel(taking_part, 5);
    assert(all.drop_last() =~= seq![Source::Qq, Source::Kuwo, Source::Netease]);
    assert(all.drop_last().drop_last() =~= seq![Source::Qq, Source::Kuwo]);
    assert(all.drop_last().drop_last().drop_last() =~= seq![Source::Qq]);
    assert(all.drop_last().drop_last().drop_last().drop_last() =~= Seq::<Source>::empty());
    assert(taking_part(all, none) =~= all);
}

/// A search asks exactly the sources that were selected, in the order of all
/// sources, for what was typed without the white space around it, for as many
/// songs and for the page that are wanted, and for at least one song of the
/// first page.
pub proof fn searches_ask_the_selected_sources(
    lead: Seq<char>,
    words: Seq<char>,
    trail: Seq<char>,
    selected: Seq<Seq<char>>,
    limit: u32,
    page: u32,
    source: Source,
)
    requires
        is_blank(lead),
        is_blank(trail),
        words.len() > 0,
        !text::is_space(words[0]),
        !text::is_space(words.last()),
        selected.contains(source_id(source)),
    ensures
        plan_of(lead + words + trail, selected, limit, page) matches PlanView::Ask {
            query,
            sources,
            limit: most,
            page: at,
        } && query == words && sources.contains(source) && (limit > 0 ==> most == limit) && (limit == 0 ==> most == 1)
            && (page > 0 ==> at == page) && (page == 0 ==> at == 1) && (forall|other: Source|
            sources.contains(other) ==> selected.contains(#[trigger] source_id(other))),
        plan_of(lead, selected, limit, page) == PlanView::Nothing,
{
    let whole = lead + words + trail;
    text::trimming_takes_white_space_alone(lead, words, trail);
    text::blank_iff_trimmed_empty(whole);
    lemma_taking_part(all_sources(), selected);
    sources::sources_are_found(source);
    let chosen = taking_part(all_sources(), selected);
    assert(chosen.contains(source));
    assert forall|other: Source| chosen.contains(other) implies selected.contains(#[trigger] source_id(other)) by {}
}

proof fn lemma_taking_part(sources: Seq<Source>, selected: Seq<Seq<char>>)
    ensures
        forall|source: Source| #[trigger]
            taking_part(sources, selected).contains(source) <==> sources.contains(source) && takes_part(source, selected),
        taking_part(sources, selected).len() <= sources.len(),
    decreases sources.len(),
{
    if sources.len() > 0 {
        let rest = sources.drop_last();
        let last = sources.last();
        lemma_taking_part(rest, selected);
        let before = taking_part(rest, selected);
        let after = taking_part(sources, selected);
        assert forall|source: Source| #[trigger] after.contains(source) <==> sources.contains(source) && takes_part(
            source,
            selected,
        ) by {
            if after.contains(source) {
                let i = choose|i: int| 0 <= i < after.len() && after[i] == source;
                if i < before.len() {
                    assert(before[i] == source);
                    assert(before.contains(source));
                    let j = choose|j: int| 0 <= j < rest.len() && rest[j] == source;
                    assert(sources[j] == source);
                } else {
                    assert(sources[sources.len() - 1] == source);
                }
            }
            if sources.contains(source) && takes_part(source, selected) {
                let i = choose|i: int| 0 <= i < sources.len() && sources[i] == source;
                if i < rest.len() {
                    assert(rest[i] == source);
                    assert(before.contains(source));
                    let j = choose|j: int| 0 <= j < before.len() && before[j] == source;
                    assert(after[j] == source);
                } else {
                    assert(after[before.len() as int] == source);
                }
            }
        }
    } else {
        assert forall|source: Source| !#[trigger] taking_part(sources, selected).contains(source) by {}
    }
}

/// Sources take part in the order in which they are listed.
pub proof fn sources_take_part_in_order(sources: Seq<Source>, source: Source, selected: Seq<Seq<char>>)
    ensures
        selected.contains(source_id(source)) ==> taking_part(sources.push(source), selected) == taking_part(
            sources,
            selected,
        ).push(source),
        selected.len() > 0 && !selected.contains(source_id(source)) ==> taking_part(sources.push(source), selected)
            == taking_part(sources, selected),
{
    assert(sources.push(source).drop_last() =~= sources);
}

/// A search whose selection names no source is refused.
pub proof fn unknown_sources_are_refused(query: Seq<char>, selected: Seq<Seq<char>>, limit: u32, page: u32)
    requires
        !is_blank(query),
        selected.len() > 0,
        forall|source: Source| !selected.contains(#[trigger] source_id(source)),
    ensures
        plan_of(query, selected, limit, page) is Refused,
{
    lemma_taking_part(all_sources(), selected);
    let chosen = taking_part(all_sources(), selected);
    if chosen.len() > 0 {
        assert(chosen.contains(chosen[0]));
        assert(!selected.contains(source_id(chosen[0])));
    }
}

/// Whether an attempt is made again: once, where it failed.
pub open spec fn is_tried_again(attempt: int, failed: bool) -> bool {
    attempt == 0 && failed
}

/// A search that failed is tried once more and never a third time; one that
/// succeeded is not tried again, even where it found nothing.
pub proof fn searches_are_tried_twice_at_most(attempt: int, failed: bool)
    ensures
        is_tried_again(0, true),
        !is_tried_again(attempt, false),
        attempt > 0 ==> !is_tried_again(attempt, failed),
{
}

/// Whether an attempt is made again: once, where it failed. What then comes of
/// it counts.
pub fn search_again(attempt: usize, result: &Result<Vec<Track>, String>) -> (again: bool)
    ensures
        again == is_tried_again(attempt as int, *result is Err),
{
    match result {
        Ok(_) => false,
        Err(_) => attempt == 0,
    }
}

/// What a source found, or the message why it found nothing.
pub type Found = Result<Vec<Track>, String>;

/// What sources found, mathematically.
pub open spec fn found_view(found: Seq<(Source, Found)>) -> Seq<(Source, Result<Seq<TrackView>, Seq<char>>)> {
    Seq::new(
        found.len(),
        |i: int|
            (
                found[i].0,
                match found[i].1 {
                    Ok(tracks) => Ok(tracks_view(tracks@)),
                    Err(message) => Err(message@),
                },
            ),
    )
}

/// The songs of all sources, in the order of the sources.
pub open spec fn all_found(found: Seq<(Source, Result<Seq<TrackView>, Seq<char>>)>) -> Seq<TrackView>
    decreases found.len(),
{
    if found.len() == 0 {
        Seq::empty()
    } else {
        match found.last().1 {
            Ok(tracks) => all_found(found.drop_last()) + tracks,
            Err(_) => all_found(found.drop_last()),
        }
    }
}

/// The complaints of all sources, each with the name of its source.
pub open spec fn complaints(found: Seq<(Source, Result<Seq<TrackView>, Seq<char>>)>) -> Seq<Seq<char>>
    decreases found.len(),
{
    if found.len() == 0 {
        Seq::empty()
    } else {
        match found.last().1 {
            Ok(_) => complaints(found.drop_last()),
            Err(message) => complaints(found.drop_last()).push(source_name(found.last().0) + ": "@ + message),
        }
    }
}

/// What a search returns: the songs that were found; where there are none and
/// some source failed, the complaints, one on each line.
pub open spec fn merged(found: Seq<(Source, Result<Seq<TrackView>, Seq<char>>)>) -> Result<Seq<TrackView>, Seq<char>> {
    if all_found(found).len() == 0 && complaints(found).len() > 0 {
        Err(joined(complaints(found), "\n"@))
    } else {
        Ok(all_found(found))
    }
}

/// Puts together what the sources found.
pub fn merge_results(found: Vec<(Source, Found)>) -> (result: Found)
    ensures
        (match result {
            Ok(tracks) => Ok::<Seq<TrackView>, Seq<char>>(tracks_view(tracks@)),
            Err(message) => Err::<Seq<TrackView>, Seq<char>>(message@),
        }) == merged(found_view(found@)),
{
    let ghost entries = found@;
    let ghost all = found_view(entries);
    let mut tracks: Vec<Track> = Vec::new();
    let mut errors: Vec<String> = Vec::new();
    assert(tracks_view(tracks@) =~= Seq::<TrackView>::empty());
    assert(texts(errors@) =~= Seq::<Seq<char>>::empty());
    assert(all.take(0).len() == 0);
    for (source, outcome) in iter: found
        invariant
            iter.seq() == entries,
            all == found_view(entries),
            tracks_view(tracks@) == all_found(all.take(iter.index())),
            texts(errors@) == complaints(all.take(iter.index())),
    {
        let ghost i = iter.index();
        assert(all.take(i + 1).drop_last() =~= all.take(i));
        assert(all.take(i + 1).last() == all[i]);
        let ghost before = tracks@;
        let ghost said = errors@;
        match outcome {
            Ok(more) => {
                let mut more = more;
                let ghost added = more@;
                tracks.append(&mut more);
                assert(tracks_view(tracks@) =~= tracks_view(before) + tracks_view(added));
            },
            Err(error) => {
                let mut message = concat(sources::descriptor(source).name, ": ");
                message.append(error.as_str());
                let ghost line = message@;
                errors.push(message);
                assert(texts(errors@) =~= texts(said).push(line));
            },
        }
    }
    assert(all.take(entries.len() as int) =~= all);
    assert(tracks_view(tracks@).len() == tracks@.len());
    assert(texts(errors@).len() == errors@.len());
    if tracks.len() == 0 && errors.len() > 0 {
        Err(text::join(&errors, "\n"))
    } else {
        Ok(tracks)
    }
}

proof fn lemma_found_grows(found: Seq<(Source, Result<Seq<TrackView>, Seq<char>>)>, at: int)
    requires
        0 <= at < found.len(),
        found[at].1 matches Ok(tracks) && tracks.len() > 0,
    ensures
        all_found(found).len() > 0,
    decreases found.len(),
{
    if at < found.len() - 1 {
        lemma_found_grows(found.drop_last(), at);
    }
}

/// A source that fails never hides what another one found.
pub proof fn failures_hide_nothing(found: Seq<(Source, Result<Seq<TrackView>, Seq<char>>)>, at: int)
    requires
        0 <= at < found.len(),
        found[at].1 matches Ok(tracks) && tracks.len() > 0,
    ensures
        merged(found) == Ok::<Seq<TrackView>, Seq<char>>(all_found(found)),
{
    lemma_found_grows(found, at);
}

/// The songs of all sources are shown, source by source and each in its order;
/// a source that failed adds none but its complaint, behind its name.
pub proof fn songs_of_all_sources_are_shown(
    found: Seq<(Source, Result<Seq<TrackView>, Seq<char>>)>,
    source: Source,
    tracks: Seq<TrackView>,
    message: Seq<char>,
)
    ensures
        all_found(found.push((source, Ok(tracks)))) == all_found(found) + tracks,
        all_found(found.push((source, Err(message)))) == all_found(found),
        complaints(found.push((source, Ok(tracks)))) == complaints(found),
        complaints(found.push((source, Err(message)))) == complaints(found).push(source_name(source) + ": "@ + message),
        all_found(Seq::empty()).len() == 0,
        complaints(Seq::empty()).len() == 0,
        merged(seq![(source, Ok(tracks))]) == Ok::<Seq<TrackView>, Seq<char>>(tracks),
        merged(seq![(source, Err(message))]) == Err::<Seq<TrackView>, Seq<char>>(source_name(source) + ": "@ + message),
        all_found(found).len() > 0 || complaints(found).len() == 0 ==> merged(found) == Ok::<Seq<TrackView>, Seq<char>>(
            all_found(found),
        ),
        all_found(found).len() == 0 && complaints(found).len() > 0 ==> merged(found) == Err::<Seq<TrackView>, Seq<char>>(
            joined(complaints(found), "\n"@),
        ),
{
    let good = (source, Ok::<Seq<TrackView>, Seq<char>>(tracks));
    let bad = (source, Err::<Seq<TrackView>, Seq<char>>(message));
    assert(found.push(good).drop_last() =~= found);
    assert(found.push(bad).drop_last() =~= found);
    let none = Seq::<(Source, Result<Seq<TrackView>, Seq<char>>)>::empty();
    assert(seq![good] =~= none.push(good));
    assert(seq![bad] =~= none.push(bad));
    assert(none.push(good).drop_last() =~= none);
    assert(none.push(bad).drop_last() =~= none);
    assert(all_found(none) =~= Seq::<TrackView>::empty());
    assert(complaints(none) =~= Seq::<Seq<char>>::empty());
    assert(none.push(good).last() == good && none.push(bad).last() == bad);
    assert(all_found(none.push(good)) =~= tracks);
    assert(complaints(none.push(good)) =~= Seq::<Seq<char>>::empty());
    assert(all_found(none.push(bad)) =~= Seq::<TrackView>::empty());
    assert(complaints(none.push(bad)) =~= seq![source_name(source) + ": "@ + message]);
    text::parts_are_joined_in_order(Seq::empty(), source_name(source) + ": "@ + message, "\n"@);
}

// ---------------------------------------------------------------------------
// Showing qualities
// ---------------------------------------------------------------------------

/// How many songs are asked for at once at most.
pub const BATCH: usize = 6;

/// How many songs of those that are left are asked for next.
pub open spec fn batch_of(left: int) -> int {
    if left < BATCH {
        left
    } else {
        BATCH as int
    }
}

/// At most six songs are asked for at once, never more than are left, and always
/// some, so that all are asked for in the end.
pub proof fn batches_are_small(left: int)
    requires
        left >= 0,
    ensures
        batch_of(left) <= 6,
        batch_of(left) <= left,
        left > 0 ==> batch_of(left) > 0,
        left <= 6 ==> batch_of(left) == left,
        left >= 6 ==> batch_of(left) == 6,
{
}

/// How many songs of those that are left are asked for next.
pub fn batch_size(left: usize) -> (result: usize)
    ensures
        result == batch_of(left as int),
{
    if left < BATCH {
        left
    } else {
        BATCH
    }
}

/// The source that is asked for the quality of a song: that of a song which is
/// not local and has no stream yet.
pub open spec fn asked_for(track: TrackView) -> Option<Source> {
    if path_of(track) is Some || !is_blank(track.audio_url) {
        None
    } else {
        source_with(track.source)
    }
}

/// The source that is asked for the quality of a song.
pub fn quality_source(track: &Track) -> (result: Option<Source>)
    ensures
        result == asked_for(track@),
{
    if local_path(track).is_some() || !text::blank(track.audio_url.as_str()) {
        None
    } else {
        sources::find_source(track.source.as_str())
    }
}

/// A song with the label and the format that its source told; unchanged where
/// it told none.
pub open spec fn with_quality(track: TrackView, told: Option<(Seq<char>, Seq<char>)>) -> TrackView {
    match told {
        Some((quality, format)) => TrackView { quality: Some(quality), format: Some(format), ..track },
        None => track,
    }
}

/// Shows the label and the format that a source told of a song.
pub fn show_quality(track: Track, told: Option<(String, String)>) -> (result: Track)
    ensures
        result@ == with_quality(track@, opt_pair(told)),
{
    match told {
        Some((quality, format)) => {
            let mut shown = track;
            shown.quality = Some(quality);
            shown.format = Some(format);
            shown
        },
        None => track,
    }
}

/// What sources told of some songs, mathematically.
pub open spec fn told_view(told: Seq<Option<(String, String)>>) -> Seq<Option<(Seq<char>, Seq<char>)>> {
    Seq::new(told.len(), |i: int| opt_pair(told[i]))
}

/// Some songs with the labels and the formats that their sources told.
pub open spec fn with_qualities(tracks: Seq<TrackView>, told: Seq<Option<(Seq<char>, Seq<char>)>>) -> Seq<TrackView> {
    Seq::new(tracks.len(), |i: int| with_quality(tracks[i], told[i]))
}

/// Shows the labels and the formats that sources told of some songs.
pub fn show_qualities(tracks: Vec<Track>, told: Vec<Option<(String, String)>>) -> (result: Vec<Track>)
    requires
        tracks@.len() == told@.len(),
    ensures
        tracks_view(result@) == with_qualities(tracks_view(tracks@), told_view(told@)),
{
    let ghost songs = tracks@;
    let ghost words = told@;
    let mut told = told;
    let mut result: Vec<Track> = Vec::new();
    let mut at: usize = 0;
    for track in iter: tracks
        invariant
            iter.seq() == songs,
            songs.len() == words.len(),
            told.len() == words.len(),
            at == iter.index(),
            forall|i: int| at <= i < told@.len() ==> #[trigger] told@[i] == words[i],
            result@.len() == at,
            forall|i: int|
                0 <= i < result@.len() ==> (#[trigger] result@[i])@ == with_quality(songs[i]@, opt_pair(words[i])),
    {
        let one = told[at].take();
        result.push(show_quality(track, one));
        at += 1;
    }
    assert(tracks_view(result@) =~= with_qualities(tracks_view(songs), told_view(words)));
    result
}

/// Showing a quality changes nothing else of a song.
pub proof fn only_quality_changes(track: TrackView, told: Option<(Seq<char>, Seq<char>)>)
    ensures
        with_quality(track, told) == (TrackView {
            quality: with_quality(track, told).quality,
            format: with_quality(track, told).format,
            ..track
        }),
{
}

/// What a source told of a song is what is shown, the label as the quality and
/// the format as the format; where it told nothing, the song stays as it is.
pub proof fn told_qualities_are_shown(track: TrackView, quality: Seq<char>, format: Seq<char>)
    ensures
        with_quality(track, Some((quality, format))).quality == Some(quality),
        with_quality(track, Some((quality, format))).format == Some(format),
        with_quality(track, None) == track,
{
}

/// Showing qualities keeps the songs in their order and changes nothing else of
/// them; a song of which nothing was told stays as it is.
pub proof fn only_qualities_change(tracks: Seq<TrackView>, told: Seq<Option<(Seq<char>, Seq<char>)>>)
    requires
        tracks.len() == told.len(),
    ensures
        with_qualities(tracks, told).len() == tracks.len(),
        forall|i: int|
            0 <= i < tracks.len() ==> (#[trigger] with_qualities(tracks, told)[i]) == (TrackView {
                quality: with_qualities(tracks, told)[i].quality,
                format: with_qualities(tracks, told)[i].format,
                ..tracks[i]
            }),
        forall|i: int|
            0 <= i < tracks.len() && told[i] is None ==> #[trigger] with_qualities(tracks, told)[i] == tracks[i],
{
}

// ---------------------------------------------------------------------------
// Resolving a song
// ---------------------------------------------------------------------------

/// What has to be done before a song can be played or downloaded.
#[derive(Debug)]
pub enum ResolvePlan {
    /// Nothing.
    Ready,
    /// Ask this source.
    Ask(Source),
    /// Nothing can be done, for this reason.
    Refused(String),
}

/// The mathematical value of a [`ResolvePlan`].
#[verifier::ext_equal]
pub enum ResolveView {
    Ready,
    Ask(Source),
    Refused(Seq<char>),
}

impl View for ResolvePlan {
    type V = ResolveView;

    open spec fn view(&self) -> ResolveView {
        match *self {
            ResolvePlan::Ready => ResolveView::Ready,
            ResolvePlan::Ask(source) => ResolveView::Ask(source),
            ResolvePlan::Refused(message) => ResolveView::Refused(message@),
        }
    }
}

/// What has to be done before a song can be played or downloaded.
pub open spec fn resolve_plan_of(track: TrackView) -> ResolveView {
    if !is_blank(track.audio_url) || path_of(track) is Some {
        ResolveView::Ready
    } else {
        match source_with(track.source) {
            Some(source) => ResolveView::Ask(source),
            None => ResolveView::Refused("未找到 "@ + track.source + " 的音源适配器"@),
        }
    }
}

/// Decides what has to be done before a song can be played or downloaded.
pub fn plan_resolve(track: &Track) -> (result: ResolvePlan)
    ensures
        result@ == resolve_plan_of(track@),
{
    if !text::blank(track.audio_url.as_str()) || local_path(track).is_some() {
        return ResolvePlan::Ready;
    }
    match sources::find_source(track.source.as_str()) {
        Some(source) => ResolvePlan::Ask(source),
        None => {
            let mut message = concat("未找到 ", track.source.as_str());
            message.append(" 的音源适配器");
            ResolvePlan::Refused(message)
        },
    }
}

/// A song that has an address is never looked up again, neither for its stream
/// nor for its quality.
pub proof fn resolved_songs_stay_resolved(track: TrackView)
    requires
        !is_blank(track.audio_url),
    ensures
        resolve_plan_of(track) == ResolveView::Ready,
        asked_for(track) is None,
{
}

/// A song without an address is looked up at its own source, for its stream as
/// for its quality; where its source is not known, it is refused.
pub proof fn songs_are_looked_up_at_their_source(track: TrackView, source: Source)
    requires
        is_blank(track.audio_url),
        path_of(track) is None,
    ensures
        track.source == source_id(source) ==> resolve_plan_of(track) == ResolveView::Ask(source) && asked_for(track)
            == Some(source),
        (forall|any: Source| track.source != #[trigger] source_id(any)) ==> resolve_plan_of(track) is Refused && asked_for(
            track,
        ) is None,
{
    sources::sources_are_found(source);
    sources::found_sources_have_the_identifier(track.source);
}

/// A local song is never looked up at a source.
pub proof fn local_songs_are_never_looked_up(track: TrackView)
    requires
        path_of(track) is Some,
    ensures
        resolve_plan_of(track) == ResolveView::Ready,
        asked_for(track) is None,
{
}

/// What follows an attempt to resolve a song.
#[derive(Debug)]
pub enum ResolveStep {
    /// Try again, and remember this first complaint.
    Again(String),
    /// Stop, with this outcome.
    Done(Result<Track, String>),
}

/// The mathematical value of a [`ResolveStep`].
#[verifier::ext_equal]
pub enum ResolveStepView {
    Again(Seq<char>),
    Done(Result<TrackView, Seq<char>>),
}

impl View for ResolveStep {
    type V = ResolveStepView;

    open spec fn view(&self) -> ResolveStepView {
        match *self {
            ResolveStep::Again(complaint) => ResolveStepView::Again(complaint@),
            ResolveStep::Done(outcome) => ResolveStepView::Done(sources::track_result(outcome)),
        }
    }
}

/// What follows an attempt to resolve a song, where `first` is the complaint of
/// the attempt before.
pub open spec fn after_attempt(first: Option<Seq<char>>, outcome: Result<TrackView, Seq<char>>) -> ResolveStepView {
    match outcome {
        Ok(track) => ResolveStepView::Done(Ok(track)),
        Err(message) => match first {
            Some(complaint) => ResolveStepView::Done(Err(complaint)),
            None => ResolveStepView::Again(message),
        },
    }
}

/// A song that resolves is taken at once, at the first attempt or at the second;
/// where both fail, the first complaint is told, and there is no third attempt.
pub proof fn songs_are_resolved_in_two_attempts(track: TrackView, first: Seq<char>, second: Seq<char>)
    ensures
        after_attempt(None, Ok(track)) == ResolveStepView::Done(Ok(track)),
        after_attempt(None, Err(first)) == ResolveStepView::Again(first),
        after_attempt(Some(first), Ok(track)) == ResolveStepView::Done(Ok(track)),
        after_attempt(Some(first), Err(second)) == ResolveStepView::Done(Err(first)),
{
}

/// Decides what follows an attempt to resolve a song. `first` is the complaint
/// of the attempt before, where there was one: it is what the user is told
/// where the second attempt fails too.
pub fn resolve_step(first: Option<String>, outcome: Result<Track, String>) -> (result: ResolveStep)
    ensures
        result@ == after_attempt(text::opt(first), sources::track_result(outcome)),
        match outcome {
            Ok(track) => result == ResolveStep::Done(Ok(track)),
            Err(message) => match first {
                Some(complaint) => result == ResolveStep::Done(Err(complaint)),
                None => result == ResolveStep::Again(message),
            },
        },
{
    match outcome {
        Ok(track) => ResolveStep::Done(Ok(track)),
        Err(message) => match first {
            Some(complaint) => ResolveStep::Done(Err(complaint)),
            None => ResolveStep::Again(message),
        },
    }
}

} // verus!
