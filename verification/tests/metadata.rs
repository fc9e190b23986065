//! Reading and removing metadata. The samples are put together byte by byte, which documents
//! the formats as well.
use savio::metadata::exif::{rational_text, read_tiff};
use savio::metadata::gif::{read_gif, strip_gif};
use savio::metadata::jpeg::{jpeg_segments, read_jpeg, strip_jpeg};
use savio::metadata::mp3::{mp3_bounds, read_mp3, MP3_TAIL_WINDOW};
use savio::metadata::png::{read_png, strip_png, PNG_SIGNATURE};
use savio::metadata::kind::{kind_by_name, meta_kind, MetaKind};
use savio::metadata::tag::Tag;
use savio::metadata::webp::{read_webp, strip_webp};
use savio::metadata::{read, strip, strip_mp3, temp_path, unsupported_message, Cleaning, SoundPlan};
use savio::ratio::four_places_text;
use savio::text::{text_value, VALUE_LIMIT};
use std::path::Path;

/// A block of EXIF with one tag, the maker of the camera.
fn exif_block() -> Vec<u8> {
    let make = b"SECRETCAM\x00";
    let mut out = Vec::new();
    out.extend_from_slice(b"MM\x00\x2a"); // byte order and magic number
    out.extend_from_slice(&8u32.to_be_bytes()); // where the first directory is
    out.extend_from_slice(&1u16.to_be_bytes()); // one entry
    out.extend_from_slice(&0x010Fu16.to_be_bytes()); // the maker
    out.extend_from_slice(&2u16.to_be_bytes()); // text
    out.extend_from_slice(&(make.len() as u32).to_be_bytes());
    out.extend_from_slice(&26u32.to_be_bytes()); // the value stands behind the directory
    out.extend_from_slice(&0u32.to_be_bytes()); // there is no other directory
    out.extend_from_slice(make);
    out
}

fn segment(marker: u8, body: &[u8]) -> Vec<u8> {
    let mut out = vec![0xFF, marker];
    out.extend_from_slice(&((body.len() + 2) as u16).to_be_bytes());
    out.extend_from_slice(body);
    out
}

/// A JPEG with JFIF, EXIF, ICC, a comment and compressed data.
fn sample_jpeg() -> Vec<u8> {
    let mut out = vec![0xFF, 0xD8];
    out.extend(segment(
        0xE0,
        b"JFIF\x00\x01\x02\x00\x00\x01\x00\x01\x00\x00",
    ));
    out.extend(segment(
        0xE1,
        &[b"Exif\x00\x00".as_slice(), &exif_block()].concat(),
    ));
    out.extend(segment(0xE2, b"ICC_PROFILE\x00PROFILEDATA"));
    out.extend(segment(0xED, b"Photoshop 3.0\x00IPTCDATA"));
    out.extend(segment(0xFE, b"SECRETCOMMENT"));
    out.extend(segment(0xDB, &[0u8; 64]));
    out.extend(segment(0xDA, &[0x01, 0x00, 0x00, 0x00]));
    out.extend_from_slice(b"\xAA\xBB\xCC\xDD ENTROPY DATA \xFF\xD9");
    out
}

fn png_chunk(kind: &[u8; 4], body: &[u8]) -> Vec<u8> {
    let mut out = Vec::new();
    out.extend_from_slice(&(body.len() as u32).to_be_bytes());
    out.extend_from_slice(kind);
    out.extend_from_slice(body);
    // Nothing looks at the check sum.
    out.extend_from_slice(&0u32.to_be_bytes());
    out
}

fn sample_png() -> Vec<u8> {
    let mut out = Vec::from(PNG_SIGNATURE);
    out.extend(png_chunk(b"IHDR", &[0u8; 13]));
    out.extend(png_chunk(b"gAMA", &[0u8; 4]));
    out.extend(png_chunk(b"tEXt", b"Comment\x00SECRETPNGTEXT"));
    out.extend(png_chunk(b"eXIf", &exif_block()));
    out.extend(png_chunk(b"zTXt", b"Software\x00\x00compressed"));
    out.extend(png_chunk(b"IDAT", b"PIXELDATA"));
    out.extend(png_chunk(b"IEND", b""));
    out
}

fn riff_chunk(kind: &[u8; 4], body: &[u8]) -> Vec<u8> {
    let mut out = Vec::new();
    out.extend_from_slice(kind);
    out.extend_from_slice(&(body.len() as u32).to_le_bytes());
    out.extend_from_slice(body);
    if body.len() % 2 == 1 {
        out.push(0);
    }
    out
}

fn sample_webp() -> Vec<u8> {
    let mut body = Vec::new();
    // The flags of EXIF and XMP are set.
    body.extend(riff_chunk(
        b"VP8X",
        &[0x0C, 0, 0, 0, 0x1F, 0, 0, 0x1F, 0, 0],
    ));
    body.extend(riff_chunk(b"VP8 ", b"COMPRESSED PIXELS"));
    body.extend(riff_chunk(b"EXIF", &exif_block()));
    body.extend(riff_chunk(b"XMP ", b"<x:xmpmeta>SECRET</x:xmpmeta>"));

    let mut out = Vec::from(b"RIFF".as_slice());
    out.extend_from_slice(&((body.len() + 4) as u32).to_le_bytes());
    out.extend_from_slice(b"WEBP");
    out.extend_from_slice(&body);
    out
}

fn sample_gif() -> Vec<u8> {
    let mut out = Vec::from(b"GIF89a".as_slice());
    out.extend_from_slice(&[0x01, 0x00, 0x01, 0x00, 0x00, 0x00, 0x00]); // without colours
    out.extend_from_slice(&[0x21, 0xF9, 0x04, 0x00, 0x00, 0x00, 0x00, 0x00]); // control
    out.extend_from_slice(&[0x21, 0xFE, 0x06]); // comment
    out.extend_from_slice(b"SECRET");
    out.push(0x00);
    out.extend_from_slice(&[0x2C, 0, 0, 0, 0, 0x01, 0, 0x01, 0, 0x00]); // frame
    out.extend_from_slice(&[0x02, 0x02, 0x44, 0x01, 0x00]);
    out.push(0x3B);
    out
}

fn contains(haystack: &[u8], needle: &[u8]) -> bool {
    haystack.windows(needle.len()).any(|w| w == needle)
}

#[test]
fn jpeg_reads_exif_and_comment() {
    let tags = read_jpeg(&sample_jpeg()).unwrap();
    assert!(
        tags.iter()
            .any(|t| t.name == "Производитель" && t.value == "SECRETCAM"),
        "не прочитан EXIF: {tags:?}"
    );
    assert!(
        tags.iter()
            .any(|t| t.name == "Комментарий" && t.value == "SECRETCOMMENT")
    );
    assert!(tags.iter().any(|t| t.name == "IPTC / Photoshop"));
}

#[test]
fn jpeg_strip_removes_all_metadata() {
    let cleaned = strip_jpeg(&sample_jpeg()).unwrap();

    assert!(!contains(&cleaned, b"SECRETCAM"), "EXIF уцелел");
    assert!(!contains(&cleaned, b"SECRETCOMMENT"), "комментарий уцелел");
    assert!(!contains(&cleaned, b"IPTCDATA"), "IPTC уцелел");
    assert!(read_jpeg(&cleaned).unwrap().is_empty());
}

#[test]
fn jpeg_strip_keeps_image_and_rendering_segments() {
    let cleaned = strip_jpeg(&sample_jpeg()).unwrap();

    assert!(contains(&cleaned, b"\xAA\xBB\xCC\xDD ENTROPY DATA"));
    assert!(contains(&cleaned, b"JFIF"), "JFIF удалён");
    assert!(contains(&cleaned, b"ICC_PROFILE"), "профиль ICC удалён");
    assert!(cleaned.starts_with(&[0xFF, 0xD8]), "потеряна сигнатура");
}

#[test]
fn jpeg_strip_is_idempotent() {
    let once = strip_jpeg(&sample_jpeg()).unwrap();
    let twice = strip_jpeg(&once).unwrap();
    assert_eq!(once, twice, "повторная очистка изменила файл");
}

#[test]
fn jpeg_rejects_foreign_file() {
    assert!(strip_jpeg(&sample_png()).is_err());
    assert!(jpeg_segments(b"not a jpeg at all").is_err());
}

#[test]
fn png_reads_text_and_exif() {
    let tags = read_png(&sample_png()).unwrap();
    assert!(
        tags.iter()
            .any(|t| t.name == "Comment" && t.value == "SECRETPNGTEXT")
    );
    assert!(tags.iter().any(|t| t.value == "SECRETCAM"));
}

#[test]
fn png_strip_removes_text_keeps_pixels() {
    let cleaned = strip_png(&sample_png()).unwrap();

    assert!(!contains(&cleaned, b"SECRETPNGTEXT"), "tEXt уцелел");
    assert!(!contains(&cleaned, b"SECRETCAM"), "eXIf уцелел");
    assert!(!contains(&cleaned, b"zTXt"), "zTXt уцелел");
    assert!(contains(&cleaned, b"PIXELDATA"), "потеряны пиксели");
    assert!(
        contains(&cleaned, b"gAMA"),
        "гамма влияет на вид, удалять её нельзя"
    );
    assert!(cleaned.starts_with(&PNG_SIGNATURE));
    assert!(read_png(&cleaned).unwrap().is_empty());
}

#[test]
fn png_strip_keeps_apng_animation() {
    let mut src = Vec::from(PNG_SIGNATURE);
    src.extend(png_chunk(b"IHDR", &[0u8; 13]));
    src.extend(png_chunk(b"acTL", &[0u8; 8]));
    src.extend(png_chunk(b"fcTL", &[0u8; 26]));
    src.extend(png_chunk(b"IDAT", b"FRAME1"));
    src.extend(png_chunk(b"fdAT", b"FRAME2"));
    src.extend(png_chunk(b"tEXt", b"k\x00SECRET"));
    src.extend(png_chunk(b"IEND", b""));

    let cleaned = strip_png(&src).unwrap();
    assert!(contains(&cleaned, b"acTL"));
    assert!(contains(&cleaned, b"fdAT"));
    assert!(contains(&cleaned, b"FRAME2"));
    assert!(!contains(&cleaned, b"SECRET"));
}

#[test]
fn webp_reads_exif_and_xmp() {
    let tags = read_webp(&sample_webp()).unwrap();
    assert!(tags.iter().any(|t| t.value == "SECRETCAM"));
    assert!(tags.iter().any(|t| t.name == "XMP"));
}

#[test]
fn webp_strip_removes_metadata_and_clears_flags() {
    let cleaned = strip_webp(&sample_webp()).unwrap();

    assert!(!contains(&cleaned, b"SECRETCAM"), "EXIF уцелел");
    assert!(!contains(&cleaned, b"<x:xmpmeta>"), "XMP уцелел");
    assert!(contains(&cleaned, b"COMPRESSED PIXELS"), "потеряны пиксели");

    let flags = cleaned[cleaned
        .windows(4)
        .position(|w| w == b"VP8X")
        .expect("VP8X потерян")
        + 8];
    assert_eq!(flags & 0b0000_1100, 0, "флаги EXIF/XMP не сброшены");

    let declared = u32::from_le_bytes(cleaned[4..8].try_into().unwrap()) as usize;
    assert_eq!(declared, cleaned.len() - 8, "размер RIFF разошёлся");

    assert!(read_webp(&cleaned).unwrap().is_empty());
}

#[test]
fn gif_strip_removes_comment_keeps_frame() {
    let src = sample_gif();
    assert!(read_gif(&src).unwrap().iter().any(|t| t.value == "SECRET"));

    let cleaned = strip_gif(&src).unwrap();
    assert!(!contains(&cleaned, b"SECRET"), "комментарий уцелел");
    assert!(
        contains(&cleaned, &[0x21, 0xF9]),
        "потеряно управление кадром"
    );
    assert!(cleaned.ends_with(&[0x3B]), "потерян конец файла");
    assert!(read_gif(&cleaned).unwrap().is_empty());
}

#[test]
fn exif_reads_both_byte_orders() {
    let tags = read_tiff(&exif_block());
    assert_eq!(tags.len(), 1);
    assert_eq!(tags[0].value, "SECRETCAM");

    let make = b"SECRETCAM\x00";
    let mut le = Vec::new();
    le.extend_from_slice(b"II\x2a\x00");
    le.extend_from_slice(&8u32.to_le_bytes());
    le.extend_from_slice(&1u16.to_le_bytes());
    le.extend_from_slice(&0x010Fu16.to_le_bytes());
    le.extend_from_slice(&2u16.to_le_bytes());
    le.extend_from_slice(&(make.len() as u32).to_le_bytes());
    le.extend_from_slice(&26u32.to_le_bytes());
    le.extend_from_slice(&0u32.to_le_bytes());
    le.extend_from_slice(make);

    assert_eq!(read_tiff(&le), tags);
}

#[test]
fn exif_survives_garbage() {
    assert!(read_tiff(b"").is_empty());
    assert!(read_tiff(b"MM\x00\x2a").is_empty());
    assert!(read_tiff(b"not exif at all, just bytes").is_empty());
    assert!(read_tiff(&[0xFF; 64]).is_empty());
}

#[test]
fn exif_does_not_loop_on_self_referencing_ifd() {
    let mut data = Vec::new();
    data.extend_from_slice(b"MM\x00\x2a");
    data.extend_from_slice(&8u32.to_be_bytes());
    data.extend_from_slice(&0u16.to_be_bytes()); // no entries
    data.extend_from_slice(&8u32.to_be_bytes()); // the next directory is this one

    assert!(read_tiff(&data).is_empty());
}

/// An MP3 of an ID3v2 tag, sound and the tags behind it.
fn sample_mp3(audio: &[u8], id3v2: usize, id3v1: bool, apev2: usize) -> Vec<u8> {
    let mut out = Vec::new();
    if id3v2 > 0 {
        out.extend_from_slice(b"ID3\x03\x00\x00");
        let size = id3v2 - 10;
        out.push(((size >> 21) & 0x7F) as u8);
        out.push(((size >> 14) & 0x7F) as u8);
        out.push(((size >> 7) & 0x7F) as u8);
        out.push((size & 0x7F) as u8);
        out.extend(std::iter::repeat_n(b'X', size));
    }
    out.extend_from_slice(audio);
    if apev2 > 0 {
        out.extend(std::iter::repeat_n(b'A', apev2 - 32));
        out.extend_from_slice(b"APETAGEX");
        out.extend_from_slice(&2000u32.to_le_bytes());
        // The size counts the footer and not the header.
        out.extend_from_slice(&(apev2 as u32).to_le_bytes());
        out.extend_from_slice(&0u32.to_le_bytes());
        out.extend_from_slice(&0u32.to_le_bytes());
        out.extend_from_slice(&[0u8; 8]);
    }
    if id3v1 {
        out.extend_from_slice(b"TAG");
        out.extend_from_slice(&[b'T'; 125]);
    }
    out
}

fn edges(file: &[u8]) -> (&[u8], &[u8]) {
    let head = &file[..10.min(file.len())];
    let tail_start = file.len().saturating_sub(MP3_TAIL_WINDOW as usize);
    (head, &file[tail_start..])
}

fn bounds_of(file: &[u8]) -> (usize, usize) {
    let (head, tail) = edges(file);
    let b = mp3_bounds(head, tail, file.len());
    (b.start, b.end)
}

#[test]
fn mp3_finds_id3v2_at_start() {
    let file = sample_mp3(b"AUDIOAUDIO", 60, false, 0);
    assert_eq!(bounds_of(&file), (60, file.len()));
    assert_eq!(&file[60..], b"AUDIOAUDIO");
}

#[test]
fn mp3_finds_id3v1_at_end() {
    let file = sample_mp3(b"AUDIOAUDIO", 0, true, 0);
    assert_eq!(bounds_of(&file), (0, 10));
}

#[test]
fn mp3_finds_ape_and_id3v1_together() {
    let file = sample_mp3(b"AUDIOAUDIO", 40, true, 64);
    let (start, end) = bounds_of(&file);
    assert_eq!(start, 40);
    assert_eq!(&file[start..end], b"AUDIOAUDIO");
}

#[test]
fn mp3_without_tags_is_left_alone() {
    let file = sample_mp3(b"PURE AUDIO DATA", 0, false, 0);
    assert_eq!(bounds_of(&file), (0, file.len()));
}

#[test]
fn mp3_ignores_broken_id3v2_size() {
    let mut file = sample_mp3(b"AUDIO", 40, false, 0);
    file[6] = 0xFF;
    assert_eq!(bounds_of(&file), (0, file.len()));
}

#[test]
fn long_values_are_truncated() {
    let long = "x".repeat(VALUE_LIMIT * 2);
    let shown = text_value(long.as_bytes());
    assert_eq!(shown.chars().count(), VALUE_LIMIT + 1, "нет многоточия");
    assert!(shown.ends_with('…'));
}

#[test]
fn control_characters_do_not_break_layout() {
    assert_eq!(text_value(b"line\x0aline\x09tab"), "line line tab");
    assert_eq!(text_value(b"trimmed\x00ignored"), "trimmed");
}

#[test]
fn temp_file_lands_next_to_original() {
    let path = Path::new("C:/photos/IMG_0001.jpg");
    let named = temp_path("C:/photos/IMG_0001.jpg");
    let tmp = Path::new(&named);
    assert_eq!(tmp.parent(), path.parent());
    assert_ne!(tmp, path);
}

#[test]
fn what_is_freed_is_what_is_missing_afterwards() {
    let all = [
        (MetaKind::Jpeg, sample_jpeg()),
        (MetaKind::Png, sample_png()),
        (MetaKind::WebP, sample_webp()),
        (MetaKind::Gif, sample_gif()),
        (MetaKind::Mp3, sample_mp3(b"AUDIOAUDIO", 40, true, 64)),
    ];
    for (kind, file) in all {
        match strip(kind, &file).unwrap() {
            Cleaning::Replace { contents, freed } => {
                assert!(freed > 0, "{kind:?}");
                assert_eq!(file.len() as u64 - contents.len() as u64, freed, "{kind:?}");
                assert!(!contains(&contents, b"SECRET"), "{kind:?}");
                assert!(read(kind, &contents, None).unwrap().is_empty(), "{kind:?}");
                assert_eq!(strip(kind, &contents), Ok(Cleaning::Nothing), "{kind:?}");
            }
            Cleaning::Nothing => panic!("{kind:?}: ничего не удалено"),
        }
    }
}

#[test]
fn kinds_that_cannot_be_cleaned_say_so() {
    for kind in [MetaKind::Tiff, MetaKind::Video, MetaKind::Unsupported] {
        assert_eq!(strip(kind, b"MM"), Err(unsupported_message(kind)), "{kind:?}");
    }
    for kind in [MetaKind::Video, MetaKind::Unsupported] {
        assert_eq!(read(kind, b"", None), Err(unsupported_message(kind)), "{kind:?}");
    }
    // A TIFF is its own block of EXIF.
    let tags = read(MetaKind::Tiff, &exif_block(), None).unwrap();
    assert_eq!(tags[0].value, "SECRETCAM");
}

#[test]
fn foreign_files_are_refused_by_every_format() {
    let junk = b"neither a picture nor anything else, but long enough";
    for kind in [MetaKind::Jpeg, MetaKind::Png, MetaKind::WebP, MetaKind::Gif] {
        assert!(read(kind, junk, None).is_err(), "{kind:?}");
        assert!(strip(kind, junk).is_err(), "{kind:?}");
    }
}

#[test]
fn a_file_of_tags_alone_is_not_emptied() {
    let file = sample_mp3(b"", 40, true, 0);
    let (head, tail) = edges(&file);
    let refused = "Внутренняя ошибка: очистка дала пустой файл.".to_owned();
    assert_eq!(strip_mp3(head, tail, file.len() as u64), Err(refused.clone()));
    assert_eq!(strip(MetaKind::Mp3, &file), Err(refused));
}

#[test]
fn an_mp3_is_cut_by_its_edges() {
    let file = sample_mp3(b"AUDIOAUDIO", 40, true, 64);
    let (head, tail) = edges(&file);
    assert_eq!(
        strip_mp3(head, tail, file.len() as u64),
        Ok(SoundPlan::Copy {
            start: 40,
            end: 50,
            freed: file.len() as u64 - 10,
        })
    );
    let bare = sample_mp3(b"AUDIOAUDIO", 0, false, 0);
    let (head, tail) = edges(&bare);
    assert_eq!(strip_mp3(head, tail, bare.len() as u64), Ok(SoundPlan::Nothing));
}

#[test]
fn an_mp3_tells_of_tags_that_nothing_can_read() {
    let file = sample_mp3(b"AUDIOAUDIO", 40, false, 0);
    let (head, tail) = edges(&file);
    let tags = read_mp3(head, tail, file.len() as u64, None);
    assert_eq!(
        tags,
        vec![
            Tag::new(
                "Объём тегов".to_owned(),
                "40 Б (включая обложку, если она есть)".to_owned()
            ),
            Tag::new(
                "Теги".to_owned(),
                "присутствуют, но прочитать их нечем: не найден ffprobe".to_owned()
            ),
        ]
    );
    let known = vec![Tag::new("Название".to_owned(), "Песня".to_owned())];
    let tags = read_mp3(head, tail, file.len() as u64, Some(known));
    assert_eq!(tags.len(), 2);
    assert_eq!(tags[0].value, "Песня");
}

#[test]
fn two_tags_in_front_take_two_cleanings() {
    let inner = sample_mp3(b"AUDIOAUDIO", 40, false, 0);
    let outer = sample_mp3(&inner, 60, false, 0);
    let once = match strip(MetaKind::Mp3, &outer).unwrap() {
        Cleaning::Replace { contents, .. } => contents,
        Cleaning::Nothing => panic!("ничего не удалено"),
    };
    assert_eq!(once, inner);
}

#[test]
fn kinds_go_by_the_extension() {
    assert_eq!(meta_kind("/дом/Фото.JPG"), MetaKind::Jpeg);
    assert_eq!(meta_kind("/дом/клип.mp4"), MetaKind::Video);
    assert_eq!(meta_kind("/дом/без расширения"), MetaKind::Unsupported);
    assert_eq!(kind_by_name("снимок.tar.png"), MetaKind::Png);
    assert_eq!(kind_by_name(".gif"), MetaKind::Unsupported);
}

#[test]
fn bytes_that_are_no_text_are_marked() {
    assert_eq!(text_value(b"a\xFFb"), "a\u{FFFD}b");
    assert_eq!(text_value(b"\x00rest"), "");
}

/// A directory of EXIF with one entry whose value stands behind it.
fn one_entry(tag: u16, format: u16, count: u32, value: &[u8]) -> Vec<u8> {
    let mut out = Vec::new();
    out.extend_from_slice(b"MM\x00\x2a");
    out.extend_from_slice(&8u32.to_be_bytes());
    out.extend_from_slice(&1u16.to_be_bytes());
    out.extend_from_slice(&tag.to_be_bytes());
    out.extend_from_slice(&format.to_be_bytes());
    out.extend_from_slice(&count.to_be_bytes());
    out.extend_from_slice(&26u32.to_be_bytes());
    out.extend_from_slice(&0u32.to_be_bytes());
    out.extend_from_slice(value);
    out
}

#[test]
fn exif_fractions_are_shown_as_numbers() {
    let mut value = 1u32.to_be_bytes().to_vec();
    value.extend_from_slice(&3u32.to_be_bytes());
    let tags = read_tiff(&one_entry(0x829A, 5, 1, &value));
    assert_eq!(
        tags,
        vec![Tag::new("Выдержка".to_owned(), "0.3333".to_owned())]
    );
    assert_eq!(rational_text(6, 3), "2");
    assert_eq!(rational_text(5, 0), "0");
}

#[test]
fn fractions_are_rounded_as_floats_are_printed() {
    let mut seed: u64 = 1;
    let mut next = || {
        seed = seed.wrapping_mul(6364136223846793005).wrapping_add(1442695040888963407);
        (seed >> 33) as u32
    };
    let mut pairs: Vec<(u32, u32)> = Vec::new();
    for _ in 0..20_000 {
        pairs.push((next(), next()));
        pairs.push((next() % 2_000, next() % 2_000));
        pairs.push((next(), next() % 300));
        pairs.push((next() % 300, next()));
    }
    // Halves of the last place, and the ends of the range.
    for n in 0..4_000 {
        pairs.push((n, 32));
        pairs.push((n, 20_000));
        pairs.push((n, 160_000));
        pairs.push((u32::MAX - n, u32::MAX));
    }
    for (n, d) in pairs {
        if d == 0 || n % d == 0 {
            continue;
        }
        let expected = format!("{:.4}", f64::from(n) / f64::from(d));
        assert_eq!(four_places_text(n, d), expected, "{n}/{d}");
    }
}

#[test]
fn a_jpeg_of_bare_markers_is_no_jpeg_once_cleaned() {
    let bare = [0xFF, 0xD8, 0xFF, 0xD9];
    assert!(read_jpeg(&bare).unwrap().is_empty());
    let cleaned = strip_jpeg(&bare).unwrap();
    assert_eq!(cleaned, vec![0xFF, 0xD8]);
    assert!(read_jpeg(&cleaned).is_err());
}

#[test]
fn a_gif_that_breaks_off_in_a_block_is_not_mended() {
    let mut broken = Vec::from(b"GIF89a".as_slice());
    broken.extend_from_slice(&[0x01, 0x00, 0x01, 0x00, 0x00, 0x00, 0x00]);
    broken.extend_from_slice(&[0x21, 0xF9, 0x04, 0x00, 0x00, 0x00, 0x00]);
    let once = strip_gif(&broken).unwrap();
    assert!(once.ends_with(&[0x3B]));
    assert!(strip_gif(&once).is_err());
}

#[test]
fn a_nested_directory_of_exif_is_read() {
    let mut data = Vec::new();
    data.extend_from_slice(b"II\x2a\x00");
    data.extend_from_slice(&8u32.to_le_bytes());
    data.extend_from_slice(&1u16.to_le_bytes());
    // A pointer to the directory of the photograph.
    data.extend_from_slice(&0x8769u16.to_le_bytes());
    data.extend_from_slice(&4u16.to_le_bytes());
    data.extend_from_slice(&1u32.to_le_bytes());
    data.extend_from_slice(&26u32.to_le_bytes());
    data.extend_from_slice(&0u32.to_le_bytes());
    data.extend_from_slice(&1u16.to_le_bytes());
    data.extend_from_slice(&0x8827u16.to_le_bytes());
    data.extend_from_slice(&3u16.to_le_bytes());
    data.extend_from_slice(&1u32.to_le_bytes());
    data.extend_from_slice(&400u32.to_le_bytes());
    data.extend_from_slice(&0u32.to_le_bytes());
    let tags = read_tiff(&data);
    assert_eq!(tags, vec![Tag::new("ISO".to_owned(), "400".to_owned())]);
}

#[test]
fn a_file_that_cleaning_would_lengthen_is_left_alone() {
    // The header of a GIF without its closing byte.
    let gif = b"GIF89a\x01\x00\x01\x00\x00\x00\x00";
    assert_eq!(strip_gif(gif).unwrap().len(), gif.len() + 1);
    assert_eq!(strip(MetaKind::Gif, gif), Ok(Cleaning::Nothing));
    assert!(read(MetaKind::Gif, gif, None).unwrap().is_empty());

    // The same with a comment, which is more than the closing byte.
    let mut commented = gif.to_vec();
    commented.extend_from_slice(b"\x21\xFE\x01x\x00");
    let mut closed = gif.to_vec();
    closed.push(0x3B);
    assert_eq!(
        strip(MetaKind::Gif, &commented),
        Ok(Cleaning::Replace {
            contents: closed,
            freed: 4,
        })
    );

    // A WebP whose last chunk is odd and lacks its alignment byte.
    let webp = b"RIFF\x0D\x00\x00\x00WEBPVP8 \x01\x00\x00\x00x";
    assert_eq!(strip_webp(webp).unwrap().len(), webp.len() + 1);
    assert_eq!(strip(MetaKind::WebP, webp), Ok(Cleaning::Nothing));
    assert!(read(MetaKind::WebP, webp, None).unwrap().is_empty());
}

#[test]
fn a_file_left_alone_has_nothing_to_show() {
    let files = [
        (MetaKind::Jpeg, strip_jpeg(&sample_jpeg()).unwrap()),
        (MetaKind::Png, strip_png(&sample_png()).unwrap()),
        (MetaKind::WebP, strip_webp(&sample_webp()).unwrap()),
        (MetaKind::Gif, strip_gif(&sample_gif()).unwrap()),
        (MetaKind::Mp3, sample_mp3(b"AUDIOAUDIO", 0, false, 0)),
    ];
    for (kind, file) in files {
        assert_eq!(strip(kind, &file), Ok(Cleaning::Nothing), "{kind:?}");
        assert!(read(kind, &file, None).unwrap().is_empty(), "{kind:?}");
    }
}

#[test]
fn a_tag_out_of_view_takes_a_second_cleaning() {
    let mut old_tag = b"AUDIOAUDIO".to_vec();
    old_tag.extend_from_slice(b"TAG");
    old_tag.resize(10 + 128, b'x');

    // An APE tag of a thousand bytes hides the old tag from the last bytes of the file.
    let mut file = old_tag.clone();
    file.resize(old_tag.len() + 1000 - 32, b'y');
    file.extend_from_slice(b"APETAGEX");
    file.extend_from_slice(&2000u32.to_le_bytes());
    file.extend_from_slice(&1000u32.to_le_bytes());
    file.resize(old_tag.len() + 1000, 0);

    let once = match strip(MetaKind::Mp3, &file).unwrap() {
        Cleaning::Replace { contents, .. } => contents,
        Cleaning::Nothing => panic!("ничего не удалено"),
    };
    assert_eq!(once, old_tag);
    assert_eq!(
        strip(MetaKind::Mp3, &once),
        Ok(Cleaning::Replace {
            contents: b"AUDIOAUDIO".to_vec(),
            freed: 128,
        })
    );
}
