//! What is known of a file from its name.
use crate::paths;
use crate::text;
use vstd::prelude::*;

verus! {

/// The kinds of files that metadata is read or removed of.
#[derive(Debug, Clone, Copy, PartialEq, Eq, Structural)]
pub enum MetaKind {
    Jpeg,
    Png,
    WebP,
    Gif,
    Tiff,
    Mp3,
    Video,
    Unsupported,
}

impl MetaKind {
    pub open spec fn can_be_read(self) -> bool {
        self != MetaKind::Video && self != MetaKind::Unsupported
    }

    pub open spec fn can_be_cleaned(self) -> bool {
        self.can_be_read() && self != MetaKind::Tiff
    }

    pub fn readable(self) -> (r: bool)
        ensures
            r == self.can_be_read(),
    {
        self != MetaKind::Video && self != MetaKind::Unsupported
    }

    pub fn cleanable(self) -> (r: bool)
        ensures
            r == self.can_be_cleaned(),
    {
        self.readable() && self != MetaKind::Tiff
    }
}

/// The kind of a file by its extension, in small letters.
pub open spec fn kind_of(extension: Seq<char>) -> MetaKind {
    if extension == "jpg"@ || extension == "jpeg"@ {
        MetaKind::Jpeg
    } else if extension == "png"@ {
        MetaKind::Png
    } else if extension == "webp"@ {
        MetaKind::WebP
    } else if extension == "gif"@ {
        MetaKind::Gif
    } else if extension == "tif"@ || extension == "tiff"@ {
        MetaKind::Tiff
    } else if extension == "mp3"@ {
        MetaKind::Mp3
    } else if extension == "mp4"@ || extension == "mkv"@ || extension == "webm"@ || extension
        == "mov"@ || extension == "avi"@ || extension == "m4v"@ {
        MetaKind::Video
    } else {
        MetaKind::Unsupported
    }
}

/// The kind of a file by its name.
pub open spec fn kind_of_name(name: Option<Seq<char>>) -> MetaKind {
    match name {
        None => MetaKind::Unsupported,
        Some(n) => match paths::extension_of(n) {
            None => MetaKind::Unsupported,
            Some(e) => kind_of(text::lowered(e)),
        },
    }
}

pub fn kind_by_extension(extension: &str) -> (r: MetaKind)
    ensures
        r == kind_of(extension@),
{
    if text::same_text(extension, "jpg") || text::same_text(extension, "jpeg") {
        MetaKind::Jpeg
    } else if text::same_text(extension, "png") {
        MetaKind::Png
    } else if text::same_text(extension, "webp") {
        MetaKind::WebP
    } else if text::same_text(extension, "gif") {
        MetaKind::Gif
    } else if text::same_text(extension, "tif") || text::same_text(extension, "tiff") {
        MetaKind::Tiff
    } else if text::same_text(extension, "mp3") {
        MetaKind::Mp3
    } else if text::same_text(extension, "mp4") || text::same_text(extension, "mkv")
        || text::same_text(extension, "webm") || text::same_text(extension, "mov")
        || text::same_text(extension, "avi") || text::same_text(extension, "m4v") {
        MetaKind::Video
    } else {
        MetaKind::Unsupported
    }
}

/// The kind of a file by its name.
pub fn kind_by_name(name: &str) -> (r: MetaKind)
    ensures
        r == kind_of_name(Some(name@)),
{
    match paths::extension(name) {
        None => MetaKind::Unsupported,
        Some(e) => {
            let small = text::lower(e.as_str());
            kind_by_extension(small.as_str())
        },
    }
}

/// The kind of the file at `path`: the one that its name tells.
pub fn meta_kind(path: &str) -> (r: MetaKind)
    ensures
        exists|name: Option<Seq<char>>| #[trigger]
            paths::may_be_name(path@, name) && r == kind_of_name(name),
{
    let name = paths::file_name(path);
    assert(paths::may_be_name(path@, text::said(name)));
    match name {
        None => MetaKind::Unsupported,
        Some(n) => kind_by_name(n.as_str()),
    }
}

/// The kind of a file goes by its extension, in letters of any size.
pub proof fn kind_goes_by_the_extension(stem: Seq<char>, e: Seq<char>)
    requires
        stem.len() > 0,
        !e.contains('.'),
        e.len() > 0,
    ensures
        ({
            let kind = kind_of_name(Some(stem + "."@ + e));
            let small = text::lowered(e);
            &&& kind == MetaKind::Jpeg <==> small == "jpg"@ || small == "jpeg"@
            &&& kind == MetaKind::Png <==> small == "png"@
            &&& kind == MetaKind::WebP <==> small == "webp"@
            &&& kind == MetaKind::Gif <==> small == "gif"@
            &&& kind == MetaKind::Tiff <==> small == "tif"@ || small == "tiff"@
            &&& kind == MetaKind::Mp3 <==> small == "mp3"@
            &&& kind == MetaKind::Video <==> small == "mp4"@ || small == "mkv"@ || small == "webm"@
                || small == "mov"@ || small == "avi"@ || small == "m4v"@
        }),
        !stem.contains('.') ==> kind_of_name(Some(stem)) == MetaKind::Unsupported,
        kind_of_name(None) == MetaKind::Unsupported,
{
    paths::stem_and_extension_are_found(stem, e);
    if !stem.contains('.') {
        paths::name_without_a_dot_is_a_stem(stem);
    }
    reveal_strlit("jpg");
    reveal_strlit("jpeg");
    reveal_strlit("png");
    reveal_strlit("webp");
    reveal_strlit("gif");
    reveal_strlit("tif");
    reveal_strlit("tiff");
    reveal_strlit("mp3");
    reveal_strlit("mp4");
    reveal_strlit("mkv");
    reveal_strlit("webm");
    reveal_strlit("mov");
    reveal_strlit("avi");
    reveal_strlit("m4v");
    assert("jpg"@[0] == 'j' && "jpeg"@[0] == 'j' && "png"@[0] == 'p' && "gif"@[0] == 'g'
        && "tif"@[0] == 't' && "tiff"@[0] == 't');
    assert("webp"@[3] == 'p' && "webm"@[3] == 'm' && "webp"@[0] == 'w' && "webm"@[0] == 'w');
    assert("mp3"@[2] == '3' && "mp4"@[2] == '4' && "mp3"@[0] == 'm' && "mp4"@[0] == 'm');
    assert("mkv"@[1] == 'k' && "mov"@[1] == 'o' && "mp3"@[1] == 'p' && "m4v"@[1] == '4'
        && "avi"@[0] == 'a' && "mp4"@[1] == 'p' && "mkv"@[0] == 'm' && "mov"@[0] == 'm'
        && "m4v"@[0] == 'm');
}

} // verus!
