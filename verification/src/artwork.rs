//! Pictures of local files.
use crate::media::{image_type, sniff_image_type};
use crate::text::{self, lowered, opt, opt_str};
use vstd::prelude::*;

verus! {

/// A picture that can be shown.
#[derive(Debug, Clone)]
pub struct LocalArtwork {
    pub content_type: String,
    pub bytes: Vec<u8>,
}

/// The mathematical value of a [`LocalArtwork`].
#[verifier::ext_equal]
pub struct ArtworkView {
    pub content_type: Seq<char>,
    pub bytes: Seq<u8>,
}

impl View for LocalArtwork {
    type V = ArtworkView;

    open spec fn view(&self) -> ArtworkView {
        ArtworkView { content_type: self.content_type@, bytes: self.bytes@ }
    }
}

/// An optional picture, mathematically.
pub open spec fn opt_artwork(artwork: Option<LocalArtwork>) -> Option<ArtworkView> {
    match artwork {
        Some(artwork) => Some(artwork@),
        None => None,
    }
}

/// The number of bytes that a picture may have.
pub const ARTWORK_LIMIT: usize = 31_457_280;

/// The type of image that a declared type stands for.
pub open spec fn declared_type(declared: Seq<char>) -> Option<Seq<char>> {
    if declared == "image/jpg"@ {
        Some("image/jpeg"@)
    } else if declared == "image/jpeg"@ || declared == "image/png"@ || declared == "image/gif"@ || declared
        == "image/bmp"@ || declared == "image/webp"@ {
        Some(declared)
    } else {
        None
    }
}

/// The picture of some bytes: of the type that the bytes show, or else of the
/// type that was declared. There is none where neither is known, nor where
/// there are no bytes or too many.
pub open spec fn from_bytes(declared: Seq<char>, bytes: Seq<u8>) -> Option<ArtworkView> {
    if bytes.len() == 0 || bytes.len() > ARTWORK_LIMIT {
        None
    } else {
        match image_type(bytes) {
            Some(content_type) => Some(ArtworkView { content_type, bytes }),
            None => match declared_type(declared) {
                Some(content_type) => Some(ArtworkView { content_type, bytes }),
                None => None,
            },
        }
    }
}

/// The picture of some bytes.
pub fn local_artwork_from_bytes(content_type: &str, bytes: Vec<u8>) -> (result: Option<LocalArtwork>)
    ensures
        opt_artwork(result) == from_bytes(content_type@, bytes@),
{
    if bytes.len() == 0 || bytes.len() > ARTWORK_LIMIT {
        return None;
    }
    let sniffed = sniff_image_type(bytes.as_slice());
    match sniffed {
        Some(known) => Some(LocalArtwork { content_type: known.to_owned(), bytes }),
        None => if text::same(content_type, "image/jpg") {
            Some(LocalArtwork { content_type: "image/jpeg".to_owned(), bytes })
        } else if text::same(content_type, "image/jpeg") || text::same(content_type, "image/png") || text::same(
            content_type,
            "image/gif",
        ) || text::same(content_type, "image/bmp") || text::same(content_type, "image/webp") {
            Some(LocalArtwork { content_type: content_type.to_owned(), bytes })
        } else {
            None
        },
    }
}

/// A picture is shown with the very bytes that were given, under the type that
/// the bytes show; only where they show none does the declared type count.
pub proof fn pictures_keep_their_bytes(declared: Seq<char>, bytes: Seq<u8>)
    requires
        0 < bytes.len() <= 31_457_280,
    ensures
        from_bytes(declared, bytes) matches Some(picture) ==> picture.bytes == bytes,
        image_type(bytes) matches Some(kind) ==> from_bytes(declared, bytes) == Some(
            ArtworkView { content_type: kind, bytes },
        ),
        image_type(bytes) is None && (declared == "image/jpeg"@ || declared == "image/png"@ || declared == "image/gif"@
            || declared == "image/bmp"@ || declared == "image/webp"@) ==> from_bytes(declared, bytes) == Some(
            ArtworkView { content_type: declared, bytes },
        ),
        image_type(bytes) is None && declared == "image/jpg"@ ==> from_bytes(declared, bytes) == Some(
            ArtworkView { content_type: "image/jpeg"@, bytes },
        ),
        image_type(bytes) is None && declared != "image/jpg"@ && declared != "image/jpeg"@ && declared != "image/png"@
            && declared != "image/gif"@ && declared != "image/bmp"@ && declared != "image/webp"@ ==> from_bytes(
            declared,
            bytes,
        ) is None,
{
    reveal_strlit("image/jpg");
    reveal_strlit("image/jpeg");
    reveal_strlit("image/png");
    reveal_strlit("image/gif");
    reveal_strlit("image/bmp");
    reveal_strlit("image/webp");
    assert("image/jpg"@.len() == 9 && "image/jpeg"@.len() == 10 && "image/webp"@.len() == 10);
    assert("image/jpg"@[6] == 'j' && "image/png"@[6] == 'p' && "image/gif"@[6] == 'g' && "image/bmp"@[6] == 'b');
}

/// Nothing and too much is no picture.
pub proof fn sizes_of_pictures_are_bounded(declared: Seq<char>, bytes: Seq<u8>)
    ensures
        bytes.len() == 0 || bytes.len() > 31_457_280 ==> from_bytes(declared, bytes) is None,
{
}

// ---------------------------------------------------------------------------
// Pictures beside a file
// ---------------------------------------------------------------------------

/// The number of names under which a picture beside a file is looked for.
pub const SIDECAR_NAMES: usize = 16;

/// The extensions of such pictures.
pub open spec fn sidecar_extensions() -> Seq<Seq<char>> {
    seq!["jpg"@, "jpeg"@, "png"@, "webp"@]
}

/// What such pictures are called: like the file itself, or by a common name.
pub open spec fn sidecar_stems(stem: Seq<char>) -> Seq<Seq<char>> {
    seq![stem, "cover"@, "folder"@, "front"@]
}

/// The names under which a picture beside a file is looked for, in turn.
pub open spec fn sidecar_names_of(stem: Seq<char>) -> Seq<Seq<char>> {
    Seq::new(
        SIDECAR_NAMES as nat,
        |i: int| sidecar_stems(stem)[i / 4] + "."@ + sidecar_extensions()[i % 4],
    )
}

/// A picture that is called like the file comes before the common names, a cover
/// before a folder and a front; of one name JPEG comes before PNG and WebP.
pub proof fn own_pictures_come_first(stem: Seq<char>, i: int)
    requires
        0 <= i < 4,
    ensures
        sidecar_names_of(stem).len() == 16,
        sidecar_names_of(stem)[0] == stem + "."@ + "jpg"@,
        sidecar_names_of(stem)[1] == stem + "."@ + "jpeg"@,
        sidecar_names_of(stem)[2] == stem + "."@ + "png"@,
        sidecar_names_of(stem)[3] == stem + "."@ + "webp"@,
        sidecar_names_of(stem)[4 + i] == "cover"@ + "."@ + sidecar_extensions()[i],
        sidecar_names_of(stem)[8 + i] == "folder"@ + "."@ + sidecar_extensions()[i],
        sidecar_names_of(stem)[12 + i] == "front"@ + "."@ + sidecar_extensions()[i],
        sidecar_names_of(stem)[i] == stem + "."@ + sidecar_extensions()[i],
{
    assert((4 + i) / 4 == 1 && (4 + i) % 4 == i);
    assert((8 + i) / 4 == 2 && (8 + i) % 4 == i);
    assert((12 + i) / 4 == 3 && (12 + i) % 4 == i);
    assert(i / 4 == 0 && i % 4 == i);
}

fn sidecar_name(stem: &str, index: usize) -> (result: String)
    requires
        index < SIDECAR_NAMES,
    ensures
        result@ == sidecar_names_of(stem@)[index as int],
{
    let base = match index / 4 {
        0 => stem,
        1 => "cover",
        2 => "folder",
        _ => "front",
    };
    let extension = match index % 4 {
        0 => "jpg",
        1 => "jpeg",
        2 => "png",
        _ => "webp",
    };
    text::concat(text::concat(base, ".").as_str(), extension)
}

/// The names under which a picture beside a file is looked for.
pub fn sidecar_names(stem: &str) -> (result: Vec<String>)
    ensures
        text::texts(result@) == sidecar_names_of(stem@),
{
    let mut names: Vec<String> = Vec::new();
    let mut i: usize = 0;
    while i < SIDECAR_NAMES
        invariant
            i <= SIDECAR_NAMES,
            names@.len() == i,
            forall|j: int| 0 <= j < i ==> (#[trigger] names@[j])@ == sidecar_names_of(stem@)[j],
        decreases SIDECAR_NAMES - i,
    {
        names.push(sidecar_name(stem, i));
        i += 1;
    }
    assert(text::texts(names@) =~= sidecar_names_of(stem@));
    names
}

/// The type of image that the extension of a picture beside a file stands for,
/// in any case of its letters.
pub open spec fn sidecar_kind(extension: Option<Seq<char>>) -> Option<Seq<char>> {
    match extension {
        Some(extension) => if lowered(extension) == "jpg"@ || lowered(extension) == "jpeg"@ {
            Some("image/jpeg"@)
        } else if lowered(extension) == "png"@ {
            Some("image/png"@)
        } else if lowered(extension) == "webp"@ {
            Some("image/webp"@)
        } else {
            None
        },
        None => None,
    }
}

/// The type of image that the extension of a picture beside a file stands for.
pub fn sidecar_type(extension: Option<&str>) -> (result: Option<&'static str>)
    ensures
        opt_str(result) == sidecar_kind(opt_str(extension)),
{
    match extension {
        Some(extension) => {
            let extension = text::lower(extension);
            let extension = extension.as_str();
            if text::same(extension, "jpg") || text::same(extension, "jpeg") {
                Some("image/jpeg")
            } else if text::same(extension, "png") {
                Some("image/png")
            } else if text::same(extension, "webp") {
                Some("image/webp")
            } else {
                None
            }
        },
        None => None,
    }
}

/// Pictures beside a file are known by their extension, in any case of its
/// letters.
pub proof fn extensions_tell_the_picture(extension: Seq<char>)
    ensures
        lowered(extension) == "jpg"@ || lowered(extension) == "jpeg"@ ==> sidecar_kind(Some(extension)) == Some(
            "image/jpeg"@,
        ),
        lowered(extension) == "png"@ ==> sidecar_kind(Some(extension)) == Some("image/png"@),
        lowered(extension) == "webp"@ ==> sidecar_kind(Some(extension)) == Some("image/webp"@),
        lowered(extension) != "jpg"@ && lowered(extension) != "jpeg"@ && lowered(extension) != "png"@ && lowered(
            extension,
        ) != "webp"@ ==> sidecar_kind(Some(extension)) is None,
        sidecar_kind(None) is None,
{
    reveal_strlit("jpg");
    reveal_strlit("jpeg");
    reveal_strlit("png");
    reveal_strlit("webp");
    assert("jpg"@[0] == 'j' && "jpeg"@[0] == 'j' && "png"@[0] == 'p' && "webp"@[0] == 'w');
}

/// A lone picture in the directory of a file stands for the file, unless it was
/// looked for under its name already. `images` are the names of the pictures in
/// the directory, `None` for a name that is no text.
pub open spec fn takes_lone_image(stem: Seq<char>, images: Seq<Option<Seq<char>>>) -> bool {
    images.len() == 1 && match images[0] {
        Some(name) => !sidecar_names_of(stem).contains(name),
        None => true,
    }
}

/// A picture that is alone stands for the file whatever it is called, unless it
/// has one of the names that were tried; of several none does.
pub proof fn lone_pictures_stand_for_the_file(stem: Seq<char>, name: Seq<char>, images: Seq<Option<Seq<char>>>, i: int)
    ensures
        !sidecar_names_of(stem).contains(name) ==> takes_lone_image(stem, seq![Some(name)]),
        0 <= i < 16 ==> !takes_lone_image(stem, seq![Some(sidecar_names_of(stem)[i])]),
        images.len() != 1 ==> !takes_lone_image(stem, images),
        takes_lone_image(stem, seq![None]),
{
}

/// Decides whether the lone picture in a directory stands for a file.
pub fn lone_image(stem: &str, images: &Vec<Option<String>>) -> (result: bool)
    ensures
        result == takes_lone_image(stem@, Seq::new(images@.len(), |i: int| opt(images@[i]))),
{
    let ghost names_seen = Seq::new(images@.len(), |i: int| opt(images@[i]));
    if images.len() != 1 {
        return false;
    }
    assert(names_seen[0] == opt(images@[0]));
    match &images[0] {
        Some(name) => {
            let names = sidecar_names(stem);
            let ghost all = sidecar_names_of(stem@);
            let mut i: usize = 0;
            while i < names.len()
                invariant
                    i <= names@.len(),
                    all == text::texts(names@),
                    all == sidecar_names_of(stem@),
                    names_seen == Seq::new(images@.len(), |i: int| opt(images@[i])),
                    images@.len() == 1,
                    names_seen[0] == Some(name@),
                    forall|j: int| 0 <= j < i ==> (#[trigger] all[j]) != name@,
                decreases names.len() - i,
            {
                if text::same(names[i].as_str(), name.as_str()) {
                    assert(all[i as int] == name@);
                    return false;
                }
                i += 1;
            }
            true
        },
        None => true,
    }
}

/// The picture beside a file, from its extension and its bytes; `None` where
/// they could not be read.
pub open spec fn from_sidecar(extension: Option<Seq<char>>, bytes: Option<Seq<u8>>) -> Option<ArtworkView> {
    match (sidecar_kind(extension), bytes) {
        (Some(kind), Some(bytes)) => from_bytes(kind, bytes),
        _ => None,
    }
}

/// The picture beside a file.
pub fn sidecar_artwork(extension: Option<&str>, bytes: Option<Vec<u8>>) -> (result: Option<LocalArtwork>)
    ensures
        opt_artwork(result) == from_sidecar(
            opt_str(extension),
            match bytes {
                Some(bytes) => Some(bytes@),
                None => None,
            },
        ),
{
    match sidecar_type(extension) {
        Some(kind) => match bytes {
            Some(bytes) => local_artwork_from_bytes(kind, bytes),
            None => None,
        },
        None => None,
    }
}

/// What a file that may be a picture is, mathematically: its extension, and its
/// bytes where they could be read.
pub open spec fn candidate(found: (Option<String>, Option<Vec<u8>>)) -> (Option<Seq<char>>, Option<Seq<u8>>) {
    (
        opt(found.0),
        match found.1 {
            Some(bytes) => Some(bytes@),
            None => None,
        },
    )
}

/// Some files that may be pictures, mathematically.
pub open spec fn candidates_view(found: Seq<(Option<String>, Option<Vec<u8>>)>) -> Seq<
    (Option<Seq<char>>, Option<Seq<u8>>),
> {
    found.map_values(|one: (Option<String>, Option<Vec<u8>>)| candidate(one))
}

/// The picture of the first of some files that gives one.
pub open spec fn first_picture(found: Seq<(Option<Seq<char>>, Option<Seq<u8>>)>) -> Option<ArtworkView>
    decreases found.len(),
{
    if found.len() == 0 {
        None
    } else {
        match from_sidecar(found[0].0, found[0].1) {
            Some(picture) => Some(picture),
            None => first_picture(found.skip(1)),
        }
    }
}

/// The picture of the first of some files that gives one, from their extensions
/// and their bytes.
pub fn first_sidecar(found: Vec<(Option<String>, Option<Vec<u8>>)>) -> (result: Option<LocalArtwork>)
    ensures
        opt_artwork(result) == first_picture(candidates_view(found@)),
{
    let ghost all = candidates_view(found@);
    assert(all.skip(0) =~= all);
    for one in iter: found
        invariant
            all == candidates_view(iter.seq()),
            first_picture(all) == first_picture(all.skip(iter.index() as int)),
    {
        proof {
            let at = iter.index() as int;
            assert(all.skip(at)[0] == candidate(one));
            assert(all.skip(at).skip(1) =~= all.skip(at + 1));
        }
        let extension = match &one.0 {
            Some(extension) => Some(extension.as_str()),
            None => None,
        };
        let picture = sidecar_artwork(extension, one.1);
        if picture.is_some() {
            return picture;
        }
    }
    None
}

/// The first file that gives a picture is taken: those before it give none, and
/// there is no picture only where no file gives one.
pub proof fn first_picture_is_taken(found: Seq<(Option<Seq<char>>, Option<Seq<u8>>)>)
    ensures
        match first_picture(found) {
            Some(picture) => exists|at: int|
                0 <= at < found.len() && #[trigger] from_sidecar(found[at].0, found[at].1) == Some(picture) && (
                forall|before: int|
                    0 <= before < at ==> #[trigger] from_sidecar(found[before].0, found[before].1) is None),
            None => forall|any: int|
                0 <= any < found.len() ==> #[trigger] from_sidecar(found[any].0, found[any].1) is None,
        },
    decreases found.len(),
{
    if found.len() > 0 && from_sidecar(found[0].0, found[0].1) is None {
        let rest = found.skip(1);
        first_picture_is_taken(rest);
        assert forall|i: int| 0 < i < found.len() implies found[i] == #[trigger] rest[i - 1] by {}
        match first_picture(rest) {
            Some(picture) => {
                let at = choose|at: int|
                    0 <= at < rest.len() && #[trigger] from_sidecar(rest[at].0, rest[at].1) == Some(picture) && (
                    forall|before: int|
                        0 <= before < at ==> #[trigger] from_sidecar(rest[before].0, rest[before].1) is None);
                assert(from_sidecar(found[at + 1].0, found[at + 1].1) == Some(picture));
                assert forall|before: int| 0 <= before < at + 1 implies #[trigger] from_sidecar(
                    found[before].0,
                    found[before].1,
                ) is None by {
                    if before > 0 {
                        assert(from_sidecar(rest[before - 1].0, rest[before - 1].1) is None);
                    }
                }
            },
            None => {
                assert forall|any: int| 0 <= any < found.len() implies #[trigger] from_sidecar(
                    found[any].0,
                    found[any].1,
                ) is None by {
                    if any > 0 {
                        assert(from_sidecar(rest[any - 1].0, rest[any - 1].1) is None);
                    }
                }
            },
        }
    } else if found.len() > 0 {
        assert(from_sidecar(found[0].0, found[0].1) == first_picture(found));
    }
}

/// A picture that can be read under one of the conventional names always stands
/// for the file, even where its bytes show no type of image.
pub proof fn conventional_pictures_are_taken(index: int, bytes: Seq<u8>)
    requires
        0 <= index < SIDECAR_NAMES,
        0 < bytes.len() <= ARTWORK_LIMIT,
    ensures
        from_sidecar(Some(sidecar_extensions()[index % 4]), Some(bytes)) is Some,
{
    let extension = sidecar_extensions()[index % 4];
    reveal_strlit("jpg");
    reveal_strlit("jpeg");
    reveal_strlit("png");
    reveal_strlit("webp");
    assert(lowered(extension) =~= extension);
}

} // verus!
