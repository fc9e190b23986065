//! Reading and removing the metadata of local files.
use crate::bytes;
use crate::metadata::kind::MetaKind;
use crate::metadata::tag::{Tag, TagText};
use crate::paths;
use crate::text;
use vstd::prelude::*;
use vstd::slice::slice_subrange;

pub mod exif;
pub mod gif;
pub mod jpeg;
pub mod kind;
pub mod mp3;
pub mod png;
pub mod probe;
pub mod tag;
pub mod webp;

verus! {

/// Why a file of the given kind is refused.
pub open spec fn refusal(kind: MetaKind) -> Seq<char> {
    match kind {
        MetaKind::Video => "Очистка видео временно не поддерживается."@,
        MetaKind::Tiff =>
            "Для TIFF доступно только чтение: удалить теги, не пересобрав файл целиком, нельзя, а пересборка рискует испортить снимок."@,
        _ =>
            "Этот формат не поддерживается. Выберите MP3 или изображение (JPG, PNG, WebP, GIF)."@,
    }
}

pub fn unsupported_message(kind: MetaKind) -> (r: String)
    ensures
        r@ == refusal(kind),
{
    match kind {
        MetaKind::Video => "Очистка видео временно не поддерживается.".to_owned(),
        MetaKind::Tiff =>
            "Для TIFF доступно только чтение: удалить теги, не пересобрав файл целиком, нельзя, а пересборка рискует испортить снимок.".to_owned(),
        _ =>
            "Этот формат не поддерживается. Выберите MP3 или изображение (JPG, PNG, WebP, GIF).".to_owned(),
    }
}

/// The tags of a file of the given kind with contents `d`, or why they cannot be read.
/// `probed` is what a probe told of an MP3 file, if one was at hand.
pub open spec fn tags(
    kind: MetaKind,
    d: Seq<u8>,
    probed: Option<Seq<TagText>>,
) -> Result<Seq<TagText>, Seq<char>> {
    match kind {
        MetaKind::Jpeg => jpeg::tags(d),
        MetaKind::Png => png::tags(d),
        MetaKind::WebP => webp::tags(d),
        MetaKind::Gif => gif::tags(d),
        MetaKind::Tiff => Ok(exif::tags(d)),
        MetaKind::Mp3 => Ok(mp3::tags(mp3::head_of(d), mp3::tail_of(d), d.len() as int, probed)),
        _ => Err(refusal(kind)),
    }
}

/// Reads the metadata of a file from its contents.
pub fn read(kind: MetaKind, data: &[u8], probed: Option<Vec<Tag>>) -> (r: Result<Vec<Tag>, String>)
    ensures
        tag::same(r, tags(kind, data@, mp3::told(probed))),
{
    match kind {
        MetaKind::Jpeg => jpeg::read_jpeg(data),
        MetaKind::Png => png::read_png(data),
        MetaKind::WebP => webp::read_webp(data),
        MetaKind::Gif => gif::read_gif(data),
        MetaKind::Tiff => Ok(exif::read_tiff(data)),
        MetaKind::Mp3 => {
            let size = data.len();
            let head_end: usize = if size < mp3::MP3_HEAD {
                size
            } else {
                mp3::MP3_HEAD
            };
            let tail_start: usize = if (size as u64) < mp3::MP3_TAIL_WINDOW {
                0
            } else {
                size - mp3::MP3_TAIL_WINDOW as usize
            };
            let head = slice_subrange(data, 0, head_end);
            let tail = slice_subrange(data, tail_start, size);
            assert(head@ =~= mp3::head_of(data@));
            assert(tail@ =~= mp3::tail_of(data@));
            Ok(mp3::read_mp3(head, tail, size as u64, probed))
        },
        _ => Err(unsupported_message(kind)),
    }
}

/// The contents that a file of the given kind is left with, or why it cannot be cleaned.
pub open spec fn cleaned(kind: MetaKind, d: Seq<u8>) -> Result<Seq<u8>, Seq<char>> {
    match kind {
        MetaKind::Jpeg => jpeg::cleaned(d),
        MetaKind::Png => png::cleaned(d),
        MetaKind::WebP => webp::cleaned(d),
        MetaKind::Gif => gif::cleaned(d),
        MetaKind::Mp3 => if mp3::sound(d).len() == 0 && d.len() > 0 {
            Err("Внутренняя ошибка: очистка дала пустой файл."@)
        } else {
            Ok(mp3::sound(d))
        },
        _ => Err(refusal(kind)),
    }
}

/// What cleaning asks to be done with a file.
#[derive(Debug, PartialEq, Eq)]
pub enum Cleaning {
    /// Nothing was to be cleaned: the file stays as it is.
    Nothing,
    /// The file is to be replaced by `contents`, which frees so many bytes.
    Replace { contents: Vec<u8>, freed: u64 },
}

/// What is to be done with a file of which cleaning leaves `left`. Where that is not shorter,
/// there was nothing to clean, and the file is not written again, also where `left` would add
/// a byte that the file lacks at its end.
pub open spec fn is_cleaning(c: Cleaning, d: Seq<u8>, left: Seq<u8>) -> bool {
    match c {
        Cleaning::Nothing => left.len() >= d.len(),
        Cleaning::Replace { contents, freed } => {
            &&& left.len() < d.len()
            &&& contents@ == left
            &&& freed == d.len() - left.len()
        },
    }
}

/// Removes all metadata from the contents of a file. Of an MP3 file that is one tag in front of
/// the sound, and behind it as many as the last bytes show.
pub fn strip(kind: MetaKind, data: &[u8]) -> (r: Result<Cleaning, String>)
    ensures
        match r {
            Ok(c) => cleaned(kind, data@) is Ok && is_cleaning(
                c,
                data@,
                cleaned(kind, data@)->Ok_0,
            ),
            Err(e) => cleaned(kind, data@) == Err::<Seq<u8>, _>(e@),
        },
{
    let outcome: Result<Vec<u8>, String> = match kind {
        MetaKind::Jpeg => jpeg::strip_jpeg(data),
        MetaKind::Png => png::strip_png(data),
        MetaKind::WebP => webp::strip_webp(data),
        MetaKind::Gif => gif::strip_gif(data),
        MetaKind::Mp3 => {
            let bounds = mp3::bounds_of(data);
            if bounds.start == bounds.end && data.len() > 0 {
                return Err("Внутренняя ошибка: очистка дала пустой файл.".to_owned());
            }
            let mut out: Vec<u8> = Vec::new();
            bytes::push_range(&mut out, data, bounds.start, bounds.end);
            assert(out@ =~= mp3::sound(data@));
            Ok(out)
        },
        _ => Err(unsupported_message(kind)),
    };
    match outcome {
        Err(e) => Err(e),
        Ok(contents) => {
            let before: u64 = data.len() as u64;
            let after: u64 = contents.len() as u64;
            if after >= before {
                return Ok(Cleaning::Nothing);
            }
            Ok(Cleaning::Replace { contents, freed: before - after })
        },
    }
}

/// What is to be done with an MP3 file, of which only the edges are in memory.
#[derive(Debug, PartialEq, Eq)]
pub enum SoundPlan {
    /// The file holds no tags.
    Nothing,
    /// The bytes `start..end` of the file are to take its place, which frees so many bytes.
    Copy { start: u64, end: u64, freed: u64 },
}

/// Decides what is to be done with an MP3 file from its first ten bytes, the window at its
/// end and its size.
pub fn strip_mp3(head: &[u8], tail: &[u8], size: u64) -> (r: Result<SoundPlan, String>)
    requires
        size <= usize::MAX,
    ensures
        ({
            let from = mp3::sound_start(head@, size as int);
            let to = mp3::sound_end(head@, tail@, size as int);
            match r {
                Ok(SoundPlan::Nothing) => from == 0 && to == size,
                Ok(SoundPlan::Copy { start, end, freed }) => {
                    &&& !(from == 0 && to == size)
                    &&& start == from < to == end
                    &&& freed == size - (end - start)
                    &&& freed > 0
                },
                Err(e) => {
                    &&& !(from == 0 && to == size)
                    &&& from == to
                    &&& e@ == "Внутренняя ошибка: очистка дала пустой файл."@
                },
            }
        }),
{
    let bounds = mp3::mp3_bounds(head, tail, size as usize);
    if bounds.start == 0 && bounds.end as u64 == size {
        return Ok(SoundPlan::Nothing);
    }
    if bounds.start == bounds.end {
        return Err("Внутренняя ошибка: очистка дала пустой файл.".to_owned());
    }
    Ok(
        SoundPlan::Copy {
            start: bounds.start as u64,
            end: bounds.end as u64,
            freed: size - (bounds.end - bounds.start) as u64,
        },
    )
}

/// The name of the file that cleaned contents are written to before they take the place of
/// the original.
pub open spec fn temp_name_of(name: Seq<char>) -> Seq<char> {
    name + ".savio-tmp"@
}

pub fn temp_name(name: &str) -> (r: String)
    ensures
        r@ == temp_name_of(name@),
{
    let mut out = name.to_owned();
    out.append(".savio-tmp");
    out
}

/// The path of that file: a sibling of the original, so that renaming stays on one volume.
pub fn temp_path(path: &str) -> (r: String)
    ensures
        exists|name: Option<Seq<char>>| #[trigger]
            paths::may_be_name(path@, name) && paths::may_be_sibling(
                path@,
                temp_name_of(
                    (match name {
                        Some(n) => n,
                        None => Seq::empty(),
                    }),
                ),
                r@,
            ),
{
    let name = paths::file_name(path);
    assert(paths::may_be_name(path@, text::said(name)));
    let own = match name {
        Some(n) => n,
        None => String::new(),
    };
    let changed = temp_name(own.as_str());
    paths::with_file_name(path, changed.as_str())
}

/// Whether what cleaning leaves of a file is itself a whole file of its kind: a JPEG of which
/// more than the signature is left, a GIF whose blocks are closed, an MP3 file whose sound
/// begins with no second tag and has none behind that lay out of view.
pub open spec fn leaves_a_whole_file(kind: MetaKind, d: Seq<u8>) -> bool {
    match kind {
        MetaKind::Jpeg => cleaned(kind, d)->Ok_0.len() >= 4,
        MetaKind::Gif => gif::kept_are_closed(d, gif::blocks(d)->Ok_0),
        MetaKind::Mp3 => {
            let sound = mp3::sound(d);
            &&& !mp3::begins_with_tag(sound)
            &&& mp3::end_is_in_view(d) || !mp3::ends_with_mark(sound)
        },
        _ => true,
    }
}

/// A cleaned file shows no metadata when it is read, and cleaning it again changes nothing.
pub proof fn cleaned_file_is_clean(kind: MetaKind, d: Seq<u8>)
    requires
        cleaned(kind, d) is Ok,
        cleaned(kind, d)->Ok_0.len() <= usize::MAX,
        leaves_a_whole_file(kind, d),
    ensures
        tags(kind, cleaned(kind, d)->Ok_0, None) == Ok::<_, Seq<char>>(Seq::<TagText>::empty()),
        cleaned(kind, cleaned(kind, d)->Ok_0) == Ok::<_, Seq<char>>(cleaned(kind, d)->Ok_0),
{
    match kind {
        MetaKind::Jpeg => jpeg::cleaned_file_is_clean(d),
        MetaKind::Png => png::cleaned_file_is_clean(d),
        MetaKind::WebP => webp::cleaned_file_is_clean(d),
        MetaKind::Gif => gif::cleaned_file_is_clean(d),
        MetaKind::Mp3 => {
            mp3::sound_shows_no_tag(d);
            mp3::file_without_tags_is_left_alone(mp3::sound(d));
        },
        _ => {},
    }
}

/// A file is replaced only where that frees bytes: nothing freed means that the file stays as
/// it is.
pub proof fn replacing_frees_bytes(c: Cleaning, d: Seq<u8>, left: Seq<u8>)
    requires
        is_cleaning(c, d, left),
    ensures
        c matches Cleaning::Replace { contents, freed } ==> freed > 0 && contents@.len() + freed
            == d.len() && contents@ == left,
        left.len() >= d.len() <==> c == Cleaning::Nothing,
{
}

/// A file that cleaning leaves as it is has no metadata to show.
pub proof fn file_left_alone_is_clean(kind: MetaKind, d: Seq<u8>)
    requires
        cleaned(kind, d) is Ok,
        cleaned(kind, d)->Ok_0.len() >= d.len(),
    ensures
        tags(kind, d, None) == Ok::<_, Seq<char>>(Seq::<TagText>::empty()),
{
    match kind {
        MetaKind::Jpeg => jpeg::file_left_alone_is_clean(d),
        MetaKind::Png => png::file_left_alone_is_clean(d),
        MetaKind::WebP => webp::file_left_alone_is_clean(d),
        MetaKind::Gif => gif::file_left_alone_is_clean(d),
        MetaKind::Mp3 => {
            mp3::all_tags_are_cut(mp3::tail_of(d), d.len() as int, d.len() as int);
            mp3::file_without_tags_is_left_alone(d);
        },
        _ => {},
    }
}

/// Cleaning is refused for the kinds that cannot be cleaned, whatever a file holds, and
/// reading for those that cannot be read.
pub proof fn refused_kinds_are_refused(kind: MetaKind, d: Seq<u8>, probed: Option<Seq<TagText>>)
    ensures
        !kind.can_be_cleaned() ==> cleaned(kind, d) == Err::<Seq<u8>, _>(refusal(kind)),
        !kind.can_be_read() ==> tags(kind, d, probed) == Err::<Seq<TagText>, _>(refusal(kind)),
{
}

/// A photo is cleaned of APP1, APP3 to APP13, APP15 and comments, and of nothing else; and all
/// that its segments tell is read.
pub proof fn photo_is_read_and_cleaned(list: Seq<(u8, Seq<u8>)>, image: Seq<u8>)
    requires
        jpeg::makes_a_photo(list, image),
    ensures
        cleaned(MetaKind::Jpeg, jpeg::photo(list, image)) == Ok::<_, Seq<char>>(
            jpeg::photo(
                list.filter(
                    |s: (u8, Seq<u8>)|
                        !(s.0 == 0xE1 || 0xE3 <= s.0 <= 0xED || s.0 == 0xEF || s.0 == 0xFE),
                ),
                image,
            ),
        ),
        tags(MetaKind::Jpeg, jpeg::photo(list, image), None) == Ok::<_, Seq<char>>(
            jpeg::lines_of(list),
        ),
{
    jpeg::cleaning_loses_nothing_but_metadata(list, image);
    jpeg::photo_is_read_in_full(list, image);
}

/// A PNG keeps the chunks that make up the picture and say how it looks, and no other; and all
/// that its chunks tell is read.
pub proof fn png_is_read_and_cleaned(list: Seq<(Seq<u8>, Seq<u8>, Seq<u8>)>, junk: Seq<u8>)
    requires
        png::makes_a_picture(list),
        (png::picture(list) + junk).len() <= usize::MAX,
    ensures
        cleaned(MetaKind::Png, png::picture(list) + junk) == Ok::<_, Seq<char>>(
            png::picture(
                list.filter(|c: (Seq<u8>, Seq<u8>, Seq<u8>)| png::is_of_the_picture(c.0)),
            ),
        ),
        tags(MetaKind::Png, png::picture(list) + junk, None) == Ok::<_, Seq<char>>(
            png::lines_of(list),
        ),
{
    png::cleaning_loses_nothing_of_the_picture(list, junk);
}

/// A WebP loses EXIF and XMP, and nothing else; and all that these tell is read.
pub proof fn webp_is_read_and_cleaned(size: Seq<u8>, list: Seq<(Seq<u8>, Seq<u8>)>)
    requires
        size.len() == 4,
        webp::makes_a_picture(list),
        webp::picture(size, list).len() <= usize::MAX,
        webp::row(webp::bare(list)).len() + 4 < 4294967296,
    ensures
        cleaned(MetaKind::WebP, webp::picture(size, list)) == Ok::<_, Seq<char>>(
            webp::picture(
                webp::low_first(webp::row(webp::bare(list)).len() as int + 4),
                webp::bare(list),
            ),
        ),
        tags(MetaKind::WebP, webp::picture(size, list), None) == Ok::<_, Seq<char>>(
            webp::lines_of(list),
        ),
{
    webp::cleaning_loses_nothing_but_metadata(size, list);
}

/// A GIF loses comments, extensions of programs and plain texts, and nothing else; and all that
/// these tell is read.
pub proof fn gif_is_read_and_cleaned(top: Seq<u8>, list: Seq<gif::Scene>, junk: Seq<u8>)
    requires
        gif::is_opening(top),
        forall|i: int| 0 <= i < list.len() ==> gif::is_scene(#[trigger] list[i]),
        forall|i: int|
            0 <= i < list.len() && (#[trigger] list[i]).opening[0] == 33 && list[i].opening[1] == 255
                ==> list[i].parts.len() > 0 && list[i].parts[0].len() == 11,
    ensures
        cleaned(MetaKind::Gif, top + gif::row(list).push(0x3B) + junk) == Ok::<_, Seq<char>>(
            top + gif::row(
                list.filter(
                    |s: gif::Scene|
                        !(s.opening[0] == 0x21 && (s.opening[1] == 0xFE || s.opening[1] == 0xFF
                            || s.opening[1] == 0x01)),
                ),
            ).push(0x3B),
        ),
        tags(MetaKind::Gif, top + gif::row(list).push(0x3B) + junk, None) == Ok::<_, Seq<char>>(
            gif::lines_of(list),
        ),
{
    gif::cleaning_loses_nothing_but_remarks(top, list, junk);
}

/// A song loses its tags at both ends, and its sound stays whole; how much of it is tags is
/// read.
pub proof fn song_is_read_and_cleaned(
    d: Seq<u8>,
    front: Seq<u8>,
    n: int,
    audio: Seq<u8>,
    ape: Seq<u8>,
    old: Seq<u8>,
    told: Seq<TagText>,
)
    requires
        mp3::is_song(d, front, n, audio, ape, old),
    ensures
        cleaned(MetaKind::Mp3, d) == Ok::<_, Seq<char>>(audio),
        d.len() == audio.len() ==> tags(MetaKind::Mp3, d, Some(told)) == Ok::<_, Seq<char>>(told),
        d.len() > audio.len() ==> tags(MetaKind::Mp3, d, Some(told)) == Ok::<_, Seq<char>>(
            told.push(
                TagText {
                    name: "Объём тегов"@,
                    value: text::decimal((d.len() - audio.len()) as nat)
                        + " Б (включая обложку, если она есть)"@,
                },
            ),
        ),
{
    mp3::tags_go_and_the_sound_stays(d, front, n, audio, ape, old);
    mp3::tags_of_a_song_are_told(d, front, n, audio, ape, old, told);
}

/// A TIFF is read as the block that it is.
pub proof fn tiff_is_its_own_block(d: Seq<u8>, probed: Option<Seq<TagText>>)
    ensures
        tags(MetaKind::Tiff, d, probed) == Ok::<_, Seq<char>>(exif::tags(d)),
{
}

/// Which kinds are read, and which are cleaned: a TIFF is read and not cleaned, a film is
/// neither.
pub proof fn pictures_and_songs_are_cleaned(kind: MetaKind)
    ensures
        kind.can_be_cleaned() <==> kind == MetaKind::Jpeg || kind == MetaKind::Png || kind
            == MetaKind::WebP || kind == MetaKind::Gif || kind == MetaKind::Mp3,
        kind.can_be_read() <==> kind.can_be_cleaned() || kind == MetaKind::Tiff,
{
}

/// Cleaned contents are written beside the file, under a name that is not its own and that no
/// other file of the folder has.
pub proof fn cleaned_contents_have_a_name_of_their_own(a: Seq<char>, b: Seq<char>)
    ensures
        temp_name_of(a) != a,
        temp_name_of(a) == temp_name_of(b) ==> a == b,
        temp_name_of(a).take(a.len() as int) == a,
        temp_name_of(a).skip(a.len() as int) == ".savio-tmp"@,
{
    reveal_strlit(".savio-tmp");
    assert(temp_name_of(a).len() == a.len() + 10);
    assert(temp_name_of(b).len() == b.len() + 10);
    assert(temp_name_of(a).take(a.len() as int) =~= a);
    assert(temp_name_of(b).take(b.len() as int) =~= b);
    assert(temp_name_of(a).skip(a.len() as int) =~= ".savio-tmp"@);
}

/// Why a file is refused is told by its kind.
pub proof fn refusal_tells_why(kind: MetaKind)
    ensures
        refusal(MetaKind::Video) == "Очистка видео временно не поддерживается."@,
        refusal(MetaKind::Tiff)
            == "Для TIFF доступно только чтение: удалить теги, не пересобрав файл целиком, нельзя, а пересборка рискует испортить снимок."@,
        kind != MetaKind::Video && kind != MetaKind::Tiff ==> refusal(kind)
            == "Этот формат не поддерживается. Выберите MP3 или изображение (JPG, PNG, WebP, GIF)."@,
{
}

/// An MP3 file that is nothing but tags is not emptied: it is refused.
pub proof fn file_of_tags_alone_is_not_emptied(d: Seq<u8>)
    requires
        d.len() > 0,
        mp3::sound(d).len() == 0,
    ensures
        cleaned(MetaKind::Mp3, d) is Err,
{
}

} // verus!
