//! The tags of audio files: what they tell of a song, and how a song is written
//! into them.
use crate::artwork::{from_bytes, local_artwork_from_bytes, opt_artwork, ArtworkView, LocalArtwork};
use crate::media::{copy_bytes, image_type, sniff_image_type};
use crate::text::{self, is_blank, opt, opt_str, trimmed};
use lofty::file::{AudioFile, FileType, TaggedFileExt};
use lofty::prelude::Accessor;
use lofty::tag::TagType;
use vstd::prelude::*;

verus! {

// ---------------------------------------------------------------------------
// The types of the tag library
// ---------------------------------------------------------------------------

/// A file whose tags have been read.
#[verifier::external_type_specification]
#[verifier::external_body]
pub struct ExTaggedFile(lofty::file::TaggedFile);

/// A tag.
#[verifier::external_type_specification]
#[verifier::external_body]
pub struct ExTag(lofty::tag::Tag);

/// A picture in a tag.
#[verifier::external_type_specification]
#[verifier::external_body]
pub struct ExPicture(lofty::picture::Picture);

/// The kind of a tag.
#[derive(Debug, Clone, Copy, PartialEq, Eq, Structural)]
pub enum TagKind {
    Ape,
    Id3v1,
    Id3v2,
    Mp4Ilst,
    VorbisComments,
    RiffInfo,
    AiffText,
}

/// The format of a file that the tag library knows by itself.
#[derive(Debug, Clone, Copy, PartialEq, Eq, Structural)]
pub enum FileFormat {
    Aac,
    Aiff,
    Ape,
    Flac,
    Mpeg,
    Mp4,
    Mpc,
    Opus,
    Vorbis,
    Speex,
    Wav,
    WavPack,
}

/// What a picture is: whether it is a front cover, the type that it claims, and
/// its bytes.
#[verifier::ext_equal]
pub struct PictureView {
    pub front: bool,
    pub mime: Option<Seq<char>>,
    pub data: Seq<u8>,
}

/// What a tag tells of a song.
#[verifier::ext_equal]
pub struct TagView {
    pub kind: TagKind,
    pub title: Option<Seq<char>>,
    pub artist: Option<Seq<char>>,
    pub album: Option<Seq<char>>,
    pub pictures: Seq<PictureView>,
}

/// What is known of a file: its tags, its format unless that is one which was
/// registered with the tag library from outside, and how long it plays in
/// milliseconds.
#[verifier::ext_equal]
pub struct FileView {
    pub tags: Seq<TagView>,
    pub format: Option<FileFormat>,
    pub millis: u128,
}

/// What a picture of the tag library is.
pub uninterp spec fn picture_contents(picture: lofty::picture::Picture) -> PictureView;

/// What a tag of the tag library tells.
pub uninterp spec fn tag_contents(tag: lofty::tag::Tag) -> TagView;

/// What the tag library knows of a file.
pub uninterp spec fn file_contents(file: lofty::file::TaggedFile) -> FileView;

/// Whether tags of a kind have a place for the title of an album: all but the
/// text chunks of AIFF.
pub open spec fn holds_album(kind: TagKind) -> bool {
    kind != TagKind::AiffText
}

/// The kind of tag that files of a format should have.
pub open spec fn preferred_of(format: FileFormat) -> TagKind {
    match format {
        FileFormat::Aac | FileFormat::Aiff | FileFormat::Mpeg | FileFormat::Wav => TagKind::Id3v2,
        FileFormat::Ape | FileFormat::Mpc | FileFormat::WavPack => TagKind::Ape,
        FileFormat::Flac | FileFormat::Opus | FileFormat::Vorbis | FileFormat::Speex => TagKind::VorbisComments,
        FileFormat::Mp4 => TagKind::Mp4Ilst,
    }
}

/// The place of the first tag of a kind; the number of tags where there is
/// none.
pub open spec fn place_of_kind(tags: Seq<TagView>, kind: TagKind) -> int
    decreases tags.len(),
{
    if tags.len() == 0 {
        0
    } else {
        let before = place_of_kind(tags.drop_last(), kind);
        if before < tags.len() - 1 {
            before
        } else if tags.last().kind == kind {
            tags.len() - 1
        } else {
            tags.len() as int
        }
    }
}

/// The place of the first tag of the preferred kind, where the file has one. A
/// format from outside prefers none.
pub open spec fn primary_place(file: FileView) -> Option<int> {
    match file.format {
        Some(format) => {
            let place = place_of_kind(file.tags, preferred_of(format));
            if place < file.tags.len() {
                Some(place)
            } else {
                None
            }
        },
        None => None,
    }
}

/// A tag that tells nothing yet.
pub open spec fn blank_tag(kind: TagKind) -> TagView {
    TagView { kind, title: None, artist: None, album: None, pictures: Seq::empty() }
}

/// Wraps `Picture::pic_type`: whether the picture is a front cover.
#[verifier::external_body]
fn is_front_cover(picture: &lofty::picture::Picture) -> (result: bool)
    ensures
        result == picture_contents(*picture).front,
{
    match picture.pic_type() {
        lofty::picture::PictureType::CoverFront => true,
        _ => false,
    }
}

/// Wraps `Picture::mime_type`, as the text that `MimeType::as_str` gives.
#[verifier::external_body]
fn picture_mime(picture: &lofty::picture::Picture) -> (result: Option<&str>)
    ensures
        opt_str(result) == picture_contents(*picture).mime,
{
    picture.mime_type().map(|mime| mime.as_str())
}

/// Wraps `Picture::data`: the bytes of the picture.
#[verifier::external_body]
fn picture_data(picture: &lofty::picture::Picture) -> (result: &[u8])
    ensures
        result@ == picture_contents(*picture).data,
{
    picture.data()
}

/// Wraps `Picture::unchecked` and the builder that it returns: a front cover of
/// the given bytes and type. The types of images that are told apart by their
/// first bytes are kept as they are written.
#[verifier::external_body]
fn front_cover(data: Vec<u8>, mime: &str) -> (result: lofty::picture::Picture)
    requires
        image_type(data@) == Some(mime@),
    ensures
        picture_contents(result) == (PictureView { front: true, mime: Some(mime@), data: data@ }),
{
    lofty::picture::Picture::unchecked(data)
        .pic_type(lofty::picture::PictureType::CoverFront)
        .mime_type(lofty::picture::MimeType::from_str(mime))
        .build()
}

/// Wraps `Tag::pictures`: the pictures of the tag, in their order.
#[verifier::external_body]
fn tag_pictures(tag: &lofty::tag::Tag) -> (result: &[lofty::picture::Picture])
    ensures
        result@.len() == tag_contents(*tag).pictures.len(),
        forall|i: int|
            0 <= i < result@.len() ==> picture_contents(#[trigger] result@[i]) == tag_contents(*tag).pictures[i],
{
    tag.pictures()
}

/// Wraps `Accessor::title`: the title, where the tag has one.
#[verifier::external_body]
fn tag_title(tag: &lofty::tag::Tag) -> (result: Option<String>)
    ensures
        opt(result) == tag_contents(*tag).title,
{
    tag.title().map(|value| value.into_owned())
}

/// Wraps `Accessor::artist`: the artist, where the tag has one.
#[verifier::external_body]
fn tag_artist(tag: &lofty::tag::Tag) -> (result: Option<String>)
    ensures
        opt(result) == tag_contents(*tag).artist,
{
    tag.artist().map(|value| value.into_owned())
}

/// Wraps `Accessor::album`: the album, where the tag has one.
#[verifier::external_body]
fn tag_album(tag: &lofty::tag::Tag) -> (result: Option<String>)
    ensures
        opt(result) == tag_contents(*tag).album,
{
    tag.album().map(|value| value.into_owned())
}

/// Wraps `Accessor::set_title`: replaces the title. Every kind of tag has a
/// place for it.
#[verifier::external_body]
fn set_title(tag: &mut lofty::tag::Tag, value: String)
    ensures
        tag_contents(*final(tag)) == (TagView { title: Some(value@), ..tag_contents(*old(tag)) }),
{
    tag.set_title(value)
}

/// Wraps `Accessor::set_artist`: replaces the artist. Every kind of tag has a
/// place for it.
#[verifier::external_body]
fn set_artist(tag: &mut lofty::tag::Tag, value: String)
    ensures
        tag_contents(*final(tag)) == (TagView { artist: Some(value@), ..tag_contents(*old(tag)) }),
{
    tag.set_artist(value)
}

/// Wraps `Accessor::set_album`: replaces the album, where the kind of tag has a
/// place for it; changes nothing where it has none.
#[verifier::external_body]
fn set_album(tag: &mut lofty::tag::Tag, value: String)
    ensures
        tag_contents(*final(tag)) == (if holds_album(tag_contents(*old(tag)).kind) {
            TagView { album: Some(value@), ..tag_contents(*old(tag)) }
        } else {
            tag_contents(*old(tag))
        }),
{
    tag.set_album(value)
}

/// The pictures that are no front covers, in their order.
pub open spec fn without_fronts(pictures: Seq<PictureView>) -> Seq<PictureView>
    decreases pictures.len(),
{
    if pictures.len() == 0 {
        Seq::empty()
    } else if pictures.last().front {
        without_fronts(pictures.drop_last())
    } else {
        without_fronts(pictures.drop_last()).push(pictures.last())
    }
}

/// Wraps `Tag::remove_picture_type` for front covers: removes all of them and
/// keeps the order of the others.
#[verifier::external_body]
fn remove_fronts(tag: &mut lofty::tag::Tag)
    ensures
        tag_contents(*final(tag)) == (TagView {
            pictures: without_fronts(tag_contents(*old(tag)).pictures),
            ..tag_contents(*old(tag))
        }),
{
    tag.remove_picture_type(lofty::picture::PictureType::CoverFront)
}

/// Wraps `Tag::push_picture`: appends a picture.
#[verifier::external_body]
fn push_picture(tag: &mut lofty::tag::Tag, picture: lofty::picture::Picture)
    ensures
        tag_contents(*final(tag)) == (TagView {
            pictures: tag_contents(*old(tag)).pictures.push(picture_contents(picture)),
            ..tag_contents(*old(tag))
        }),
{
    tag.push_picture(picture)
}

/// Wraps `Tag::new`: a tag of a kind that tells nothing yet.
#[verifier::external_body]
fn new_tag(kind: TagKind) -> (result: lofty::tag::Tag)
    ensures
        tag_contents(result) == blank_tag(kind),
{
    lofty::tag::Tag::new(match kind {
        TagKind::Ape => TagType::Ape,
        TagKind::Id3v1 => TagType::Id3v1,
        TagKind::Id3v2 => TagType::Id3v2,
        TagKind::Mp4Ilst => TagType::Mp4Ilst,
        TagKind::VorbisComments => TagType::VorbisComments,
        TagKind::RiffInfo => TagType::RiffInfo,
        TagKind::AiffText => TagType::AiffText,
    })
}

/// Wraps `TaggedFileExt::file_type`: the format of the file, and nothing for a
/// format that was registered from outside.
#[verifier::external_body]
fn file_format(file: &lofty::file::TaggedFile) -> (result: Option<FileFormat>)
    ensures
        result == file_contents(*file).format,
{
    match file.file_type() {
        FileType::Aac => Some(FileFormat::Aac),
        FileType::Aiff => Some(FileFormat::Aiff),
        FileType::Ape => Some(FileFormat::Ape),
        FileType::Flac => Some(FileFormat::Flac),
        FileType::Mpeg => Some(FileFormat::Mpeg),
        FileType::Mp4 => Some(FileFormat::Mp4),
        FileType::Mpc => Some(FileFormat::Mpc),
        FileType::Opus => Some(FileFormat::Opus),
        FileType::Vorbis => Some(FileFormat::Vorbis),
        FileType::Speex => Some(FileFormat::Speex),
        FileType::Wav => Some(FileFormat::Wav),
        FileType::WavPack => Some(FileFormat::WavPack),
        _ => None,
    }
}

/// Wraps `TaggedFileExt::tags`: the tags of the file, in their order.
#[verifier::external_body]
fn file_tags(file: &lofty::file::TaggedFile) -> (result: &[lofty::tag::Tag])
    ensures
        result@.len() == file_contents(*file).tags.len(),
        forall|i: int| 0 <= i < result@.len() ==> tag_contents(#[trigger] result@[i]) == file_contents(*file).tags[i],
{
    file.tags()
}

/// Wraps `TaggedFileExt::primary_tag`: the first tag of the preferred kind. It
/// panics on a format that is not registered, so the format has to be a known
/// one.
#[verifier::external_body]
fn primary_tag(file: &lofty::file::TaggedFile) -> (result: Option<&lofty::tag::Tag>)
    requires
        file_contents(*file).format is Some,
    ensures
        match result {
            Some(tag) => primary_place(file_contents(*file)) is Some && tag_contents(*tag) == file_contents(
                *file,
            ).tags[primary_place(file_contents(*file))->0],
            None => primary_place(file_contents(*file)) is None,
        },
{
    file.primary_tag()
}

/// Wraps `TaggedFileExt::primary_tag_mut`: the first tag of the preferred kind,
/// to be changed in its place. It panics on a format that is not registered.
#[verifier::external_body]
fn primary_tag_mut(file: &mut lofty::file::TaggedFile) -> (result: Option<&mut lofty::tag::Tag>)
    requires
        file_contents(*old(file)).format is Some,
    ensures
        match result {
            Some(tag) => primary_place(file_contents(*old(file))) is Some && tag_contents(*tag) == file_contents(
                *old(file),
            ).tags[primary_place(file_contents(*old(file)))->0] && file_contents(*final(file)) == (FileView {
                tags: file_contents(*old(file)).tags.update(
                    primary_place(file_contents(*old(file)))->0,
                    tag_contents(*final(tag)),
                ),
                ..file_contents(*old(file))
            }),
            None => primary_place(file_contents(*old(file))) is None && *final(file) == *old(file),
        },
{
    file.primary_tag_mut()
}

/// Wraps `TaggedFileExt::first_tag_mut`: the first tag, to be changed in its
/// place.
#[verifier::external_body]
fn first_tag_mut(file: &mut lofty::file::TaggedFile) -> (result: Option<&mut lofty::tag::Tag>)
    ensures
        match result {
            Some(tag) => file_contents(*old(file)).tags.len() > 0 && tag_contents(*tag) == file_contents(
                *old(file),
            ).tags[0] && file_contents(*final(file)) == (FileView {
                tags: file_contents(*old(file)).tags.update(0, tag_contents(*final(tag))),
                ..file_contents(*old(file))
            }),
            None => file_contents(*old(file)).tags.len() == 0 && *final(file) == *old(file),
        },
{
    file.first_tag_mut()
}

/// Wraps `TaggedFileExt::primary_tag_type`: the kind of tag that files of this
/// format should have. It panics on a format that is not registered.
#[verifier::external_body]
fn preferred_kind(file: &lofty::file::TaggedFile) -> (result: TagKind)
    requires
        file_contents(*file).format is Some,
    ensures
        result == preferred_of(file_contents(*file).format->0),
{
    match file.primary_tag_type() {
        TagType::Ape => TagKind::Ape,
        TagType::Id3v1 => TagKind::Id3v1,
        TagType::Id3v2 => TagKind::Id3v2,
        TagType::Mp4Ilst => TagKind::Mp4Ilst,
        TagType::VorbisComments => TagKind::VorbisComments,
        TagType::RiffInfo => TagKind::RiffInfo,
        _ => TagKind::AiffText,
    }
}

/// Wraps `TaggedFileExt::insert_tag` for a file without tags and a tag of the
/// preferred kind, which every known format takes: the tag becomes its only
/// one. It panics on a format that is not registered.
#[verifier::external_body]
fn insert_first_tag(file: &mut lofty::file::TaggedFile, tag: lofty::tag::Tag)
    requires
        file_contents(*old(file)).tags.len() == 0,
        file_contents(*old(file)).format is Some,
        tag_contents(tag).kind == preferred_of(file_contents(*old(file)).format->0),
    ensures
        file_contents(*final(file)) == (FileView { tags: seq![tag_contents(tag)], ..file_contents(*old(file)) }),
{
    file.insert_tag(tag);
}

/// Wraps `AudioFile::properties`, `FileProperties::duration` and
/// `Duration::as_millis`: how long the file plays.
#[verifier::external_body]
fn file_millis(file: &lofty::file::TaggedFile) -> (result: u128)
    ensures
        result == file_contents(*file).millis,
{
    file.properties().duration().as_millis()
}

// ---------------------------------------------------------------------------
// Reading
// ---------------------------------------------------------------------------

/// The pictures of all tags, in their order.
pub open spec fn all_pictures(tags: Seq<TagView>) -> Seq<PictureView>
    decreases tags.len(),
{
    if tags.len() == 0 {
        Seq::empty()
    } else {
        all_pictures(tags.drop_last()) + tags.last().pictures
    }
}

/// The first front cover among pictures.
pub open spec fn first_front(pictures: Seq<PictureView>) -> Option<PictureView>
    decreases pictures.len(),
{
    if pictures.len() == 0 {
        None
    } else {
        match first_front(pictures.drop_last()) {
            Some(picture) => Some(picture),
            None => if pictures.last().front {
                Some(pictures.last())
            } else {
                None
            },
        }
    }
}

/// The picture that stands for a file: its first front cover, or else its first
/// picture.
pub open spec fn cover_of(file: FileView) -> Option<PictureView> {
    let pictures = all_pictures(file.tags);
    match first_front(pictures) {
        Some(picture) => Some(picture),
        None => if pictures.len() > 0 {
            Some(pictures[0])
        } else {
            None
        },
    }
}

/// The artwork in a file.
pub open spec fn embedded_artwork(file: FileView) -> Option<ArtworkView> {
    match cover_of(file) {
        Some(picture) => from_bytes(
            match picture.mime {
                Some(mime) => mime,
                None => Seq::empty(),
            },
            picture.data,
        ),
        None => None,
    }
}

proof fn lemma_first_front_join(left: Seq<PictureView>, right: Seq<PictureView>)
    ensures
        first_front(left + right) == (match first_front(left) {
            Some(picture) => Some(picture),
            None => first_front(right),
        }),
    decreases right.len(),
{
    if right.len() == 0 {
        assert(left + right =~= left);
    } else {
        assert((left + right).drop_last() =~= left + right.drop_last());
        assert((left + right).last() == right.last());
        lemma_first_front_join(left, right.drop_last());
    }
}

proof fn lemma_all_pictures(tags: Seq<TagView>, count: int)
    requires
        0 <= count <= tags.len(),
    ensures
        all_pictures(tags) == all_pictures(tags.take(count)) + all_pictures(tags.skip(count)),
    decreases tags.len() - count,
{
    if count == tags.len() {
        assert(tags.take(count) =~= tags);
        assert(tags.skip(count) =~= Seq::<TagView>::empty());
        assert(all_pictures(tags) + Seq::<PictureView>::empty() =~= all_pictures(tags));
    } else {
        lemma_all_pictures(tags.drop_last(), count);
        assert(tags.drop_last().take(count) =~= tags.take(count));
        assert(tags.skip(count).drop_last() =~= tags.drop_last().skip(count));
        assert(tags.skip(count).last() == tags.last());
        assert((all_pictures(tags.take(count)) + all_pictures(tags.drop_last().skip(count))) + tags.last().pictures
            =~= all_pictures(tags.take(count)) + (all_pictures(tags.drop_last().skip(count))
            + tags.last().pictures));
    }
}

/// The picture that stands for a file.
fn find_cover(file: &lofty::file::TaggedFile) -> (result: Option<&lofty::picture::Picture>)
    ensures
        match result {
            Some(picture) => cover_of(file_contents(*file)) == Some(picture_contents(*picture)),
            None => cover_of(file_contents(*file)) is None,
        },
{
    let tags = file_tags(file);
    let ghost views = file_contents(*file).tags;
    let mut first: Option<&lofty::picture::Picture> = None;
    let mut i: usize = 0;
    assert(views.take(0).len() == 0);
    while i < tags.len()
        invariant
            i <= tags@.len(),
            views == file_contents(*file).tags,
            tags@.len() == views.len(),
            forall|k: int| 0 <= k < tags@.len() ==> tag_contents(#[trigger] tags@[k]) == views[k],
            first_front(all_pictures(views.take(i as int))) is None,
            match first {
                Some(picture) => all_pictures(views.take(i as int)).len() > 0 && picture_contents(*picture)
                    == all_pictures(views.take(i as int))[0],
                None => all_pictures(views.take(i as int)).len() == 0,
            },
        decreases tags.len() - i,
    {
        let pictures = tag_pictures(&tags[i]);
        let ghost before = all_pictures(views.take(i as int));
        let ghost here = views[i as int].pictures;
        let mut j: usize = 0;
        assert(before + here.take(0) =~= before);
        while j < pictures.len()
            invariant
                i < tags@.len(),
                j <= pictures@.len(),
                views == file_contents(*file).tags,
                tags@.len() == views.len(),
                before == all_pictures(views.take(i as int)),
                here == views[i as int].pictures,
                pictures@.len() == here.len(),
                forall|k: int| 0 <= k < pictures@.len() ==> picture_contents(#[trigger] pictures@[k]) == here[k],
                first_front(before + here.take(j as int)) is None,
                match first {
                    Some(picture) => (before + here.take(j as int)).len() > 0 && picture_contents(*picture) == (before
                        + here.take(j as int))[0],
                    None => (before + here.take(j as int)).len() == 0,
                },
            decreases pictures.len() - j,
        {
            let picture = &pictures[j];
            assert(here.take(j + 1) =~= here.take(j as int).push(here[j as int]));
            assert((before + here.take(j + 1)).drop_last() =~= before + here.take(j as int));
            assert((before + here.take(j + 1)).last() == here[j as int]);
            if is_front_cover(picture) {
                proof {
                    let upto = before + here.take(j + 1);
                    let rest = here.skip(j + 1) + all_pictures(views.skip(i + 1));
                    assert(first_front(upto) == Some(here[j as int]));
                    lemma_all_pictures(views, i + 1);
                    assert(views.take(i + 1).drop_last() =~= views.take(i as int));
                    assert(all_pictures(views) =~= upto + rest);
                    lemma_first_front_join(upto, rest);
                }
                return Some(picture);
            }
            if first.is_none() {
                first = Some(picture);
            }
            j += 1;
        }
        assert(here.take(j as int) =~= here);
        assert(views.take(i + 1).drop_last() =~= views.take(i as int));
        i += 1;
    }
    assert(views.take(i as int) =~= views);
    first
}

/// The artwork in a file.
pub fn local_artwork(tagged_file: &lofty::file::TaggedFile) -> (result: Option<LocalArtwork>)
    ensures
        opt_artwork(result) == embedded_artwork(file_contents(*tagged_file)),
{
    match find_cover(tagged_file) {
        Some(picture) => {
            let data = copy_bytes(picture_data(picture));
            match picture_mime(picture) {
                Some(mime) => local_artwork_from_bytes(mime, data),
                None => {
                    assert(""@ =~= Seq::<char>::empty()) by {
                        reveal_strlit("");
                    }
                    local_artwork_from_bytes("", data)
                },
            }
        },
        None => None,
    }
}

/// The tag that is read: the preferred one, or else the first.
pub open spec fn chosen_tag(file: FileView) -> Option<TagView> {
    match primary_place(file) {
        Some(place) => Some(file.tags[place]),
        None => if file.tags.len() > 0 {
            Some(file.tags[0])
        } else {
            None
        },
    }
}

/// The tag that is read is the first of the kind that files of its format
/// should have, or else the first of all.
pub proof fn preferred_tag_is_read(file: FileView, format: FileFormat, at: int)
    requires
        0 <= at < file.tags.len(),
        file.format == Some(format),
    ensures
        file.tags[at].kind == preferred_of(format) && (forall|i: int|
            0 <= i < at ==> (#[trigger] file.tags[i]).kind != preferred_of(format)) ==> chosen_tag(file) == Some(
            file.tags[at],
        ),
        (forall|i: int| 0 <= i < file.tags.len() ==> (#[trigger] file.tags[i]).kind != preferred_of(format))
            ==> chosen_tag(file) == Some(file.tags[0]),
{
    let kind = preferred_of(format);
    if file.tags[at].kind == kind && (forall|i: int| 0 <= i < at ==> (#[trigger] file.tags[i]).kind != kind) {
        lemma_place_is(file.tags, kind, at);
    }
    if forall|i: int| 0 <= i < file.tags.len() ==> (#[trigger] file.tags[i]).kind != kind {
        lemma_place_is(file.tags, kind, file.tags.len() as int);
    }
}

proof fn lemma_place_is(tags: Seq<TagView>, kind: TagKind, at: int)
    requires
        0 <= at <= tags.len(),
        forall|i: int| 0 <= i < at ==> (#[trigger] tags[i]).kind != kind,
        at < tags.len() ==> tags[at].kind == kind,
    ensures
        place_of_kind(tags, kind) == at,
    decreases tags.len(),
{
    if tags.len() > 0 {
        let rest = tags.drop_last();
        assert forall|i: int| 0 <= i < at && i < rest.len() implies (#[trigger] rest[i]).kind != kind by {
            assert(rest[i] == tags[i]);
        }
        if at < tags.len() - 1 {
            assert(rest[at] == tags[at]);
            lemma_place_is(rest, kind, at);
        } else {
            lemma_place_is(rest, kind, rest.len() as int);
        }
    }
}

/// The picture that stands for a file is its first front cover, and its first
/// picture where it has no front cover.
pub proof fn front_covers_come_first(file: FileView, at: int)
    requires
        0 <= at < all_pictures(file.tags).len(),
    ensures
        all_pictures(file.tags)[at].front && (forall|i: int|
            0 <= i < at ==> !(#[trigger] all_pictures(file.tags)[i]).front) ==> cover_of(file) == Some(
            all_pictures(file.tags)[at],
        ),
        (forall|i: int| 0 <= i < all_pictures(file.tags).len() ==> !(#[trigger] all_pictures(file.tags)[i]).front)
            ==> cover_of(file) == Some(all_pictures(file.tags)[0]),
{
    let pictures = all_pictures(file.tags);
    if pictures[at].front && (forall|i: int| 0 <= i < at ==> !(#[trigger] pictures[i]).front) {
        lemma_first_front_is(pictures, at);
    }
    if forall|i: int| 0 <= i < pictures.len() ==> !(#[trigger] pictures[i]).front {
        lemma_first_front_is(pictures, pictures.len() as int);
    }
}

proof fn lemma_first_front_is(pictures: Seq<PictureView>, at: int)
    requires
        0 <= at <= pictures.len(),
        forall|i: int| 0 <= i < at ==> !(#[trigger] pictures[i]).front,
        at < pictures.len() ==> pictures[at].front,
    ensures
        first_front(pictures) == (if at < pictures.len() {
            Some(pictures[at])
        } else {
            None
        }),
    decreases pictures.len(),
{
    if pictures.len() > 0 {
        let rest = pictures.drop_last();
        assert forall|i: int| 0 <= i < at && i < rest.len() implies !(#[trigger] rest[i]).front by {
            assert(rest[i] == pictures[i]);
        }
        if at < pictures.len() - 1 {
            assert(rest[at] == pictures[at]);
            lemma_first_front_is(rest, at);
        } else {
            lemma_first_front_is(rest, rest.len() as int);
        }
    }
}

/// The pictures of a file are those of its tags, one tag behind the other; its
/// artwork has the bytes of the picture that stands for it.
pub proof fn pictures_of_all_tags_count(tags: Seq<TagView>, tag: TagView, file: FileView)
    ensures
        all_pictures(tags.push(tag)) == all_pictures(tags) + tag.pictures,
        all_pictures(Seq::empty()).len() == 0,
        embedded_artwork(file) matches Some(artwork) ==> (cover_of(file) matches Some(picture) && artwork.bytes
            == picture.data),
        cover_of(file) matches Some(picture) ==> (0 < picture.data.len() <= 31_457_280 && image_type(picture.data)
            is Some ==> embedded_artwork(file) is Some),
{
    assert(tags.push(tag).drop_last() =~= tags);
}

/// The kind of tag that each format should have.
pub proof fn formats_prefer_their_tags(format: FileFormat)
    ensures
        preferred_of(format) == TagKind::Id3v2 <==> format == FileFormat::Mpeg || format == FileFormat::Wav || format
            == FileFormat::Aiff || format == FileFormat::Aac,
        preferred_of(format) == TagKind::VorbisComments <==> format == FileFormat::Flac || format == FileFormat::Vorbis
            || format == FileFormat::Opus || format == FileFormat::Speex,
        preferred_of(format) == TagKind::Mp4Ilst <==> format == FileFormat::Mp4,
        preferred_of(format) == TagKind::Ape <==> format == FileFormat::Ape || format == FileFormat::Mpc || format
            == FileFormat::WavPack,
        holds_album(preferred_of(format)),
{
}

/// What a file tells of a song: what is not blank in the tag that is read.
#[derive(Debug)]
pub struct SongTexts {
    pub title: Option<String>,
    pub artist: Option<String>,
    pub album: Option<String>,
}

/// A text of the tag that is read, unless it is blank.
pub open spec fn told(text: Option<Seq<char>>) -> Option<Seq<char>> {
    crate::sources::unless_blank(text)
}

/// Reads what a file tells of a song.
pub fn song_texts(file: &lofty::file::TaggedFile) -> (result: SongTexts)
    ensures
        match chosen_tag(file_contents(*file)) {
            Some(tag) => opt(result.title) == told(tag.title) && opt(result.artist) == told(tag.artist) && opt(
                result.album,
            ) == told(tag.album),
            None => result.title is None && result.artist is None && result.album is None,
        },
{
    let tags = file_tags(file);
    let first = if tags.len() > 0 {
        Some(&tags[0])
    } else {
        None
    };
    let chosen = match file_format(file) {
        Some(_) => match primary_tag(file) {
            Some(tag) => Some(tag),
            None => first,
        },
        None => first,
    };
    match chosen {
        Some(tag) => SongTexts {
            title: crate::sources::keep_words(tag_title(tag)),
            artist: crate::sources::keep_words(tag_artist(tag)),
            album: crate::sources::keep_words(tag_album(tag)),
        },
        None => SongTexts { title: None, artist: None, album: None },
    }
}

/// How long a file plays, in milliseconds; the greatest number where that does
/// not fit.
pub fn duration_ms(file: &lofty::file::TaggedFile) -> (result: u64)
    ensures
        result == (if file_contents(*file).millis <= u64::MAX {
            file_contents(*file).millis as u64
        } else {
            u64::MAX
        }),
{
    let millis: u128 = file_millis(file);
    if millis <= u64::MAX as u128 {
        millis as u64
    } else {
        u64::MAX
    }
}

// ---------------------------------------------------------------------------
// Writing
// ---------------------------------------------------------------------------

/// The pictures of a tag after a cover was put in: it takes the place of all
/// front covers, unless its bytes are those of no known type of image.
pub open spec fn covered(pictures: Seq<PictureView>, cover: Option<Seq<u8>>) -> Seq<PictureView> {
    match cover {
        Some(data) => match image_type(data) {
            Some(mime) => without_fronts(pictures).push(PictureView { front: true, mime: Some(mime), data }),
            None => pictures,
        },
        None => pictures,
    }
}

/// A text of a tag after another was written over it, without the white space
/// around it; a blank one is not written.
pub open spec fn overwritten(before: Option<Seq<char>>, text: Seq<char>) -> Option<Seq<char>> {
    if is_blank(text) {
        before
    } else {
        Some(trimmed(text))
    }
}

/// A tag after a song was written into it.
pub open spec fn written_tag(
    tag: TagView,
    title: Seq<char>,
    artist: Seq<char>,
    album: Seq<char>,
    cover: Option<Seq<u8>>,
) -> TagView {
    TagView {
        kind: tag.kind,
        title: overwritten(tag.title, title),
        artist: overwritten(tag.artist, artist),
        album: if holds_album(tag.kind) {
            overwritten(tag.album, album)
        } else {
            tag.album
        },
        pictures: covered(tag.pictures, cover),
    }
}

/// A file after a song was written into it: into the preferred tag, or else
/// into the first, or else into a new one of the preferred kind. A file without
/// tags whose format prefers none stays as it is.
pub open spec fn written_file(
    file: FileView,
    title: Seq<char>,
    artist: Seq<char>,
    album: Seq<char>,
    cover: Option<Seq<u8>>,
) -> FileView {
    let tags = match primary_place(file) {
        Some(place) => file.tags.update(place, written_tag(file.tags[place], title, artist, album, cover)),
        None => if file.tags.len() > 0 {
            file.tags.update(0, written_tag(file.tags[0], title, artist, album, cover))
        } else {
            match file.format {
                Some(format) => seq![written_tag(blank_tag(preferred_of(format)), title, artist, album, cover)],
                None => file.tags,
            }
        },
    };
    FileView { tags, ..file }
}

/// What is written into a tag is what was given, without the white space around
/// it; a blank text leaves what was there, and so does a cover that is no
/// picture. A cover replaces the front covers and keeps the other pictures.
pub proof fn songs_are_written_as_given(
    tag: TagView,
    lead: Seq<char>,
    words: Seq<char>,
    trail: Seq<char>,
    other: Seq<char>,
    cover: Option<Seq<u8>>,
)
    requires
        is_blank(lead),
        is_blank(trail),
        words.len() > 0,
        !text::is_space(words[0]),
        !text::is_space(words.last()),
    ensures
        written_tag(tag, lead + words + trail, other, other, cover).title == Some(words),
        written_tag(tag, other, lead + words + trail, other, cover).artist == Some(words),
        tag.kind != TagKind::AiffText ==> written_tag(tag, other, other, lead + words + trail, cover).album == Some(words),
        written_tag(tag, lead, other, other, cover).title == tag.title,
        written_tag(tag, other, lead, other, cover).artist == tag.artist,
        written_tag(tag, other, other, lead, cover).album == tag.album,
        written_tag(tag, other, other, other, cover).kind == tag.kind,
        written_tag(tag, other, other, other, None).pictures == tag.pictures,
        cover matches Some(data) ==> (image_type(data) is None ==> written_tag(tag, other, other, other, cover).pictures
            == tag.pictures) && (image_type(data) matches Some(mime) ==> written_tag(
            tag,
            other,
            other,
            other,
            cover,
        ).pictures.last() == (PictureView { front: true, mime: Some(mime), data })),
{
    text::trimming_takes_white_space_alone(lead, words, trail);
    let whole = lead + words + trail;
    text::blank_iff_trimmed_empty(whole);
    text::blank_iff_trimmed_empty(lead);
}

/// Of the pictures of a tag only the front covers give way to another cover; the
/// others stay, in their order.
pub proof fn other_pictures_stay(pictures: Seq<PictureView>, picture: PictureView)
    ensures
        picture.front ==> without_fronts(pictures.push(picture)) == without_fronts(pictures),
        !picture.front ==> without_fronts(pictures.push(picture)) == without_fronts(pictures).push(picture),
        without_fronts(Seq::empty()).len() == 0,
{
    assert(pictures.push(picture).drop_last() =~= pictures);
}

/// Writing changes one tag alone: every other tag stays as it is, and none is
/// lost.
pub proof fn other_tags_stay(
    file: FileView,
    title: Seq<char>,
    artist: Seq<char>,
    album: Seq<char>,
    cover: Option<Seq<u8>>,
    i: int,
)
    requires
        0 <= i < file.tags.len(),
    ensures
        written_file(file, title, artist, album, cover).tags.len() == file.tags.len(),
        written_file(file, title, artist, album, cover).tags[i] == file.tags[i] || written_file(
            file,
            title,
            artist,
            album,
            cover,
        ).tags[i] == written_tag(file.tags[i], title, artist, album, cover),
        primary_place(file) matches Some(place) ==> (i != place ==> written_file(
            file,
            title,
            artist,
            album,
            cover,
        ).tags[i] == file.tags[i]),
        primary_place(file) is None && i > 0 ==> written_file(file, title, artist, album, cover).tags[i] == file.tags[i],
        written_file(file, title, artist, album, cover).format == file.format,
        written_file(file, title, artist, album, cover).millis == file.millis,
{
    match file.format {
        Some(format) => {
            lemma_place_kept(file.tags, file.tags, preferred_of(format));
        },
        None => {},
    }
}

/// The bytes of an optional cover.
pub open spec fn opt_bytes(bytes: Option<&[u8]>) -> Option<Seq<u8>> {
    match bytes {
        Some(bytes) => Some(bytes@),
        None => None,
    }
}

/// Writes a song into a tag.
fn write_tag(tag: &mut lofty::tag::Tag, title: &str, artist: &str, album: &str, cover: Option<&[u8]>)
    ensures
        tag_contents(*final(tag)) == written_tag(
            tag_contents(*old(tag)),
            title@,
            artist@,
            album@,
            opt_bytes(cover),
        ),
{
    if !text::blank(title) {
        set_title(tag, text::trim(title).to_owned());
    }
    if !text::blank(artist) {
        set_artist(tag, text::trim(artist).to_owned());
    }
    if !text::blank(album) {
        set_album(tag, text::trim(album).to_owned());
    }
    match cover {
        Some(data) => match sniff_image_type(data) {
            Some(mime) => {
                let picture = front_cover(copy_bytes(data), mime);
                remove_fronts(tag);
                push_picture(tag, picture);
            },
            None => {},
        },
        None => {},
    }
}

/// Writes a song into the tags of a file; tells whether there was a tag to
/// write into.
pub fn write_tags(
    file: &mut lofty::file::TaggedFile,
    title: &str,
    artist: &str,
    album: &str,
    cover: Option<&[u8]>,
) -> (result: bool)
    ensures
        file_contents(*final(file)) == written_file(
            file_contents(*old(file)),
            title@,
            artist@,
            album@,
            opt_bytes(cover),
        ),
        result == (file_contents(*old(file)).tags.len() > 0 || file_contents(*old(file)).format is Some),
{
    let known = file_format(file).is_some();
    if known && primary_tag(file).is_some() {
        match primary_tag_mut(file) {
            Some(tag) => {
                write_tag(tag, title, artist, album, cover);
            },
            None => {},
        }
        return true;
    }
    if file_tags(file).len() > 0 {
        match first_tag_mut(file) {
            Some(tag) => {
                write_tag(tag, title, artist, album, cover);
            },
            None => {},
        }
        return true;
    }
    if !known {
        return false;
    }
    let tag = new_tag(preferred_kind(file));
    insert_first_tag(file, tag);
    proof {
        let tags = file_contents(*file).tags;
        assert(tags.drop_last() =~= Seq::<TagView>::empty());
        assert(place_of_kind(tags.drop_last(), tag_contents(tag).kind) == 0);
        assert(primary_place(file_contents(*file)) == Some(0int));
        assert(primary_place(file_contents(*old(file))) is None);
    }
    match primary_tag_mut(file) {
        Some(tag) => {
            write_tag(tag, title, artist, album, cover);
        },
        None => {},
    }
    true
}

proof fn lemma_place_kept(before: Seq<TagView>, after: Seq<TagView>, kind: TagKind)
    requires
        before.len() == after.len(),
        forall|i: int| 0 <= i < before.len() ==> (#[trigger] before[i]).kind == after[i].kind,
    ensures
        place_of_kind(before, kind) == place_of_kind(after, kind),
        0 <= place_of_kind(before, kind) <= before.len(),
    decreases before.len(),
{
    if before.len() > 0 {
        assert forall|i: int| 0 <= i < before.drop_last().len() implies (#[trigger] before.drop_last()[i]).kind
            == after.drop_last()[i].kind by {
            assert(before[i].kind == after[i].kind);
        }
        lemma_place_kept(before.drop_last(), after.drop_last(), kind);
        assert(before[before.len() - 1].kind == after[after.len() - 1].kind);
    }
}

/// What was written is read back: the tag that is read afterwards has the
/// title and the artist that were written, without white space around them, and
/// the album too where its kind has a place for one. A blank text leaves what
/// was there.
pub proof fn written_song_reads_back(
    file: FileView,
    title: Seq<char>,
    artist: Seq<char>,
    album: Seq<char>,
    cover: Option<Seq<u8>>,
)
    requires
        file.tags.len() > 0 || file.format is Some,
    ensures
        ({
            let before = match chosen_tag(file) {
                Some(tag) => tag,
                None => blank_tag(preferred_of(file.format->0)),
            };
            chosen_tag(written_file(file, title, artist, album, cover)) == Some(
                written_tag(before, title, artist, album, cover),
            )
        }),
{
    let after = written_file(file, title, artist, album, cover);
    match file.format {
        Some(format) => {
            let kind = preferred_of(format);
            lemma_place_kept(file.tags, file.tags, kind);
            if file.tags.len() > 0 {
                lemma_place_kept(file.tags, after.tags, kind);
            } else {
                let tag = written_tag(blank_tag(kind), title, artist, album, cover);
                assert(after.tags =~= seq![tag]);
                assert(after.tags.drop_last() =~= Seq::<TagView>::empty());
                assert(place_of_kind(after.tags.drop_last(), kind) == 0);
                assert(after.tags.last() == tag);
                assert(primary_place(after) == Some(0int));
            }
        },
        None => {},
    }
}

proof fn lemma_without_fronts(pictures: Seq<PictureView>)
    ensures
        first_front(without_fronts(pictures)) is None,
    decreases pictures.len(),
{
    if pictures.len() > 0 {
        lemma_without_fronts(pictures.drop_last());
        if !pictures.last().front {
            let kept = without_fronts(pictures.drop_last());
            assert(kept.push(pictures.last()).drop_last() =~= kept);
        }
    }
}

/// A cover that was written is the only front cover of its tag, and the one
/// that is found there.
pub proof fn written_cover_is_found(tag: TagView, title: Seq<char>, artist: Seq<char>, album: Seq<char>, data: Seq<u8>)
    requires
        image_type(data) is Some,
    ensures
        first_front(written_tag(tag, title, artist, album, Some(data)).pictures) == Some(
            PictureView { front: true, mime: image_type(data), data },
        ),
{
    lemma_without_fronts(tag.pictures);
    let picture = PictureView { front: true, mime: image_type(data), data };
    let kept = without_fronts(tag.pictures);
    assert(kept.push(picture).drop_last() =~= kept);
}

} // verus!
