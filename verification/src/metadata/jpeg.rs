//! JPEG: marker segments up to the compressed image.
use crate::bytes;
use crate::metadata::exif;
use crate::metadata::tag;
use crate::metadata::tag::{Tag, TagText};
use crate::text;
use vstd::prelude::*;
use vstd::slice::slice_subrange;

verus! {

/// How the body of an EXIF segment begins: "Exif" and two zero bytes.
pub const EXIF_MARK: [u8; 6] = [0x45, 0x78, 0x69, 0x66, 0x00, 0x00];

/// How the body of an XMP segment begins: "http://ns.adobe.com/xap/1.0/" and a zero byte.
pub const XMP_MARK: [u8; 29] = [
    0x68, 0x74, 0x74, 0x70, 0x3A, 0x2F, 0x2F, 0x6E, 0x73, 0x2E, 0x61, 0x64, 0x6F, 0x62, 0x65, 0x2E,
    0x63, 0x6F, 0x6D, 0x2F, 0x78, 0x61, 0x70, 0x2F, 0x31, 0x2E, 0x30, 0x2F, 0x00,
];

/// A marker segment: the marker byte and where the segment stands, marker included.
#[derive(Debug, Clone, Copy)]
pub struct Segment {
    pub marker: u8,
    pub start: usize,
    pub end: usize,
}

/// A marker segment in terms of unbounded positions.
pub struct Span {
    pub marker: u8,
    pub start: int,
    pub end: int,
}

impl View for Segment {
    type V = Span;

    open spec fn view(&self) -> Span {
        Span { marker: self.marker, start: self.start as int, end: self.end as int }
    }
}

pub open spec fn spans(segments: Seq<Segment>) -> Seq<Span> {
    segments.map_values(|s: Segment| s@)
}

/// Markers that stand alone, with no length and no body.
pub open spec fn stands_alone(marker: u8) -> bool {
    marker == 0x01 || 0xD0 <= marker <= 0xD9
}

/// The segments from `pos` up to the compressed image, and where that image starts.
///
/// Bytes 0xFF that fill the space between segments and markers that stand alone belong to
/// no segment. Where no image starts, the segments end at the first byte that is no marker.
pub open spec fn scan(d: Seq<u8>, pos: int) -> Result<(Seq<Span>, int), Seq<char>>
    decreases d.len() - pos,
{
    if pos + 1 >= d.len() || d[pos] != 0xFF {
        Ok((Seq::empty(), pos))
    } else if d[pos + 1] == 0xFF {
        scan(d, pos + 1)
    } else if stands_alone(d[pos + 1]) {
        scan(d, pos + 2)
    } else if d[pos + 1] == 0xDA {
        Ok((Seq::empty(), pos))
    } else if pos + 4 > d.len() {
        Err("JPEG повреждён: обрыв на длине сегмента."@)
    } else if bytes::be16(d, pos + 2) < 2 {
        Err("JPEG повреждён: сегмент нулевой длины."@)
    } else if pos + 2 + bytes::be16(d, pos + 2) > d.len() {
        Err("JPEG повреждён: сегмент выходит за конец файла."@)
    } else {
        let end = pos + 2 + bytes::be16(d, pos + 2);
        after(seq![Span { marker: d[pos + 1], start: pos, end }], scan(d, end))
    }
}

/// An outcome of [`scan`] with `first` put in front of its segments.
pub open spec fn after(
    first: Seq<Span>,
    rest: Result<(Seq<Span>, int), Seq<char>>,
) -> Result<(Seq<Span>, int), Seq<char>> {
    match rest {
        Ok((spans, image)) => Ok((first + spans, image)),
        Err(e) => Err(e),
    }
}

/// The segments of a JPEG file and where its compressed image starts.
pub open spec fn segments(d: Seq<u8>) -> Result<(Seq<Span>, int), Seq<char>> {
    if d.len() < 4 || d[0] != 0xFF || d[1] != 0xD8 {
        Err("Это не JPEG: файл не начинается с сигнатуры JPEG."@)
    } else {
        scan(d, 2)
    }
}

/// Whether a segment holds metadata: APP1 (EXIF and XMP), APP3 to APP13, APP15, and COM.
/// APP0, APP2 and APP14 say how the image is to look and are none.
pub open spec fn is_metadata(marker: u8) -> bool {
    marker == 0xE1 || 0xE3 <= marker <= 0xED || marker == 0xEF || marker == 0xFE
}

/// The tags of one segment.
pub open spec fn segment_tags(d: Seq<u8>, s: Span) -> Seq<TagText> {
    let body = d.subrange(s.start + 4, s.end);
    if s.marker == 0xE1 {
        if bytes::has_at(body, 0, EXIF_MARK@) {
            exif::tags(body.skip(6))
        } else if bytes::has_at(body, 0, XMP_MARK@) {
            seq![tag::said("XMP"@, tag::presence(body.len()))]
        } else {
            Seq::empty()
        }
    } else if s.marker == 0xED {
        seq![tag::said("IPTC / Photoshop"@, tag::presence(body.len()))]
    } else if s.marker == 0xFE {
        seq![tag::said("Комментарий"@, text::value_text(body))]
    } else {
        Seq::empty()
    }
}

/// The tags of all segments, in file order.
pub open spec fn all_tags(d: Seq<u8>, spans: Seq<Span>) -> Seq<TagText>
    decreases spans.len(),
{
    if spans.len() == 0 {
        Seq::empty()
    } else {
        segment_tags(d, spans[0]) + all_tags(d, spans.skip(1))
    }
}

/// The tags of a JPEG file.
pub open spec fn tags(d: Seq<u8>) -> Result<Seq<TagText>, Seq<char>> {
    match segments(d) {
        Ok((spans, _)) => Ok(all_tags(d, spans)),
        Err(e) => Err(e),
    }
}

/// The bytes of the segments that hold no metadata.
pub open spec fn kept(d: Seq<u8>, spans: Seq<Span>) -> Seq<u8>
    decreases spans.len(),
{
    if spans.len() == 0 {
        Seq::empty()
    } else if is_metadata(spans[0].marker) {
        kept(d, spans.skip(1))
    } else {
        d.subrange(spans[0].start, spans[0].end) + kept(d, spans.skip(1))
    }
}

/// A JPEG file without its metadata: the signature, the segments kept and the image.
pub open spec fn cleaned(d: Seq<u8>) -> Result<Seq<u8>, Seq<char>> {
    match segments(d) {
        Ok((spans, image)) => Ok(
            d.take(2) + kept(d, spans) + d.subrange(image, d.len() as int),
        ),
        Err(e) => Err(e),
    }
}

/// Whether every segment lies inside `len` bytes and the image starts there.
pub open spec fn inside(spans: Seq<Span>, image: int, len: int) -> bool {
    &&& 0 <= image <= len
    &&& forall|i: int|
        0 <= i < spans.len() ==> 0 <= (#[trigger] spans[i]).start && spans[i].start + 4
            <= spans[i].end <= len
}

pub fn jpeg_is_metadata(marker: u8) -> (r: bool)
    ensures
        r == is_metadata(marker),
{
    marker == 0xE1 || (0xE3 <= marker && marker <= 0xED) || marker == 0xEF || marker == 0xFE
}

pub fn jpeg_segments(data: &[u8]) -> (r: Result<(Vec<Segment>, usize), String>)
    ensures
        match r {
            Ok((found, image)) => {
                &&& segments(data@) == Ok::<_, Seq<char>>((spans(found@), image as int))
                &&& inside(spans(found@), image as int, data@.len() as int)
            },
            Err(e) => segments(data@) == Err::<(Seq<Span>, int), _>(e@),
        },
{
    if data.len() < 4 || data[0] != 0xFF || data[1] != 0xD8 {
        return Err("Это не JPEG: файл не начинается с сигнатуры JPEG.".to_owned());
    }
    let len = data.len();
    let mut found: Vec<Segment> = Vec::new();
    let mut pos: usize = 2;
    assert(after(spans(found@), scan(data@, 2)) == scan(data@, 2)) by {
        assert(spans(found@) =~= Seq::empty());
        if let Ok((rest, image)) = scan(data@, 2) {
            assert(Seq::<Span>::empty() + rest =~= rest);
        }
    }
    while pos < len - 1 && data[pos] == 0xFF
        invariant
            4 <= len == data@.len(),
            2 <= pos <= len,
            segments(data@) == after(spans(found@), scan(data@, pos as int)),
            inside(spans(found@), pos as int, len as int),
        ensures
            2 <= pos <= len,
            segments_done(data@, pos as int),
            segments(data@) == after(spans(found@), scan(data@, pos as int)),
            inside(spans(found@), pos as int, len as int),
        decreases len - pos,
    {
        let marker = data[pos + 1];
        if marker == 0xFF {
            pos += 1;
            continue ;
        }
        if marker == 0x01 || (0xD0 <= marker && marker <= 0xD9) {
            pos += 2;
            continue ;
        }
        if marker == 0xDA {
            break ;
        }
        let size: usize = match bytes::be_u16(data, pos + 2) {
            Some(n) => n as usize,
            None => return Err("JPEG повреждён: обрыв на длине сегмента.".to_owned()),
        };
        if size < 2 {
            return Err("JPEG повреждён: сегмент нулевой длины.".to_owned());
        }
        if !bytes::fits(len, pos + 2, size) {
            return Err("JPEG повреждён: сегмент выходит за конец файла.".to_owned());
        }
        let end = pos + 2 + size;
        let ghost before = spans(found@);
        let next = Segment { marker, start: pos, end };
        found.push(next);
        proof {
            assert(spans(found@) =~= before.push(next@));
            lemma_after_after(before, seq![next@], scan(data@, end as int));
            assert(before + seq![next@] =~= before.push(next@));
        }
        pos = end;
    }
    proof {
        assert(spans(found@) + Seq::<Span>::empty() =~= spans(found@));
    }
    Ok((found, pos))
}

/// Whether no further segment starts at `pos`.
pub open spec fn segments_done(d: Seq<u8>, pos: int) -> bool {
    pos + 1 >= d.len() || d[pos] != 0xFF || d[pos + 1] == 0xDA
}

proof fn lemma_after_after(
    a: Seq<Span>,
    b: Seq<Span>,
    rest: Result<(Seq<Span>, int), Seq<char>>,
)
    ensures
        after(a, after(b, rest)) == after(a + b, rest),
{
    if let Ok((spans, _)) = rest {
        assert(a + (b + spans) =~= (a + b) + spans);
    }
}

pub fn read_jpeg(data: &[u8]) -> (r: Result<Vec<Tag>, String>)
    ensures
        tag::same(r, tags(data@)),
{
    let (found, _image) = match jpeg_segments(data) {
        Ok(parts) => parts,
        Err(e) => return Err(e),
    };
    let ghost all = spans(found@);
    let mut out: Vec<Tag> = Vec::new();
    let mut i: usize = 0;
    assert(tag::texts(out@) =~= Seq::empty());
    assert(all.skip(0) =~= all);
    while i < found.len()
        invariant
            i <= found@.len(),
            all == spans(found@),
            inside(all, _image as int, data@.len() as int),
            all_tags(data@, all) =~= tag::texts(out@) + all_tags(data@, all.skip(i as int)),
        decreases found@.len() - i,
    {
        let s = found[i];
        proof {
            assert(all[i as int] == s@);
            assert(all.skip(i as int)[0] == s@);
            assert(all.skip(i as int).skip(1) =~= all.skip(i + 1));
        }
        let ghost before = tag::texts(out@);
        let body = slice_subrange(data, s.start + 4, s.end);
        if s.marker == 0xE1 {
            if bytes::matches_at(body, 0, EXIF_MARK.as_slice()) {
                let block = slice_subrange(body, 6, body.len());
                assert(block@ =~= body@.skip(6));
                tag::append_tags(&mut out, exif::read_tiff(block));
            } else if bytes::matches_at(body, 0, XMP_MARK.as_slice()) {
                tag::push_tag(&mut out, "XMP", tag::presence_text(body.len()));
            }
        } else if s.marker == 0xED {
            tag::push_tag(&mut out, "IPTC / Photoshop", tag::presence_text(body.len()));
        } else if s.marker == 0xFE {
            tag::push_tag(&mut out, "Комментарий", text::text_value(body));
        }
        assert(tag::texts(out@) =~= before + segment_tags(data@, s@));
        i += 1;
    }
    assert(all_tags(data@, all.skip(found@.len() as int)) =~= Seq::empty());
    Ok(out)
}

pub fn strip_jpeg(data: &[u8]) -> (r: Result<Vec<u8>, String>)
    ensures
        bytes::same(r, cleaned(data@)),
{
    let (found, image) = match jpeg_segments(data) {
        Ok(parts) => parts,
        Err(e) => return Err(e),
    };
    let ghost all = spans(found@);
    let mut out: Vec<u8> = Vec::with_capacity(data.len());
    bytes::push_range(&mut out, data, 0, 2);
    assert(out@ =~= data@.take(2));
    assert(all.skip(0) =~= all);
    let mut i: usize = 0;
    while i < found.len()
        invariant
            i <= found@.len(),
            all == spans(found@),
            inside(all, image as int, data@.len() as int),
            data@.take(2) + kept(data@, all) =~= out@ + kept(data@, all.skip(i as int)),
        decreases found@.len() - i,
    {
        let s = found[i];
        proof {
            assert(all[i as int] == s@);
            assert(all.skip(i as int)[0] == s@);
            assert(all.skip(i as int).skip(1) =~= all.skip(i + 1));
        }
        if !jpeg_is_metadata(s.marker) {
            bytes::push_range(&mut out, data, s.start, s.end);
        }
        i += 1;
    }
    assert(kept(data@, all.skip(found@.len() as int)) =~= Seq::empty());
    bytes::push_range(&mut out, data, image, data.len());
    Ok(out)
}

/// Scanning a cleaned tail: `p` stands for what precedes it in the cleaned file.
proof fn lemma_scan_cleaned(d: Seq<u8>, pos: int, p: Seq<u8>)
    requires
        0 <= pos <= d.len(),
        scan(d, pos) is Ok,
    ensures
        ({
            let (found, image) = scan(d, pos)->Ok_0;
            let x = p + kept(d, found) + d.subrange(image, d.len() as int);
            &&& 0 <= image <= d.len()
            &&& scan(x, p.len() as int) is Ok
            &&& {
                let (again, start) = scan(x, p.len() as int)->Ok_0;
                &&& start == p.len() + kept(d, found).len()
                &&& kept(x, again) == kept(d, found)
                &&& x.subrange(start, x.len() as int) == d.subrange(image, d.len() as int)
                &&& forall|i: int|
                    0 <= i < again.len() ==> !is_metadata((#[trigger] again[i]).marker)
            }
        }),
    decreases d.len() - pos,
{
    let (found, image) = scan(d, pos)->Ok_0;
    let n = d.len() as int;
    let at = p.len() as int;
    if pos + 1 >= n || d[pos] != 0xFF || d[pos + 1] == 0xDA {
        let x = p + kept(d, found) + d.subrange(image, n);
        assert(x =~= p + d.subrange(pos, n));
        assert(x.subrange(at, x.len() as int) =~= d.subrange(pos, n));
        assert(at < x.len() ==> x[at] == d[pos]);
        assert(at + 1 < x.len() ==> x[at + 1] == d[pos + 1]);
    } else if d[pos + 1] == 0xFF {
        lemma_scan_cleaned(d, pos + 1, p);
    } else if stands_alone(d[pos + 1]) {
        lemma_scan_cleaned(d, pos + 2, p);
    } else {
        let end = pos + 2 + bytes::be16(d, pos + 2);
        let s = Span { marker: d[pos + 1], start: pos, end };
        let rest = scan(d, end)->Ok_0.0;
        assert(found =~= seq![s] + rest);
        assert(found.skip(1) =~= rest);
        if is_metadata(s.marker) {
            lemma_scan_cleaned(d, end, p);
        } else {
            let piece = d.subrange(pos, end);
            lemma_scan_cleaned(d, end, p + piece);
            let x = p + kept(d, found) + d.subrange(image, n);
            assert(x =~= (p + piece) + kept(d, rest) + d.subrange(image, n));
            assert(x[at] == d[pos]);
            assert(x[at + 1] == d[pos + 1]);
            assert(x[at + 2] == d[pos + 2]);
            assert(x[at + 3] == d[pos + 3]);
            let (again, start) = scan(x, at + piece.len())->Ok_0;
            let s2 = Span { marker: s.marker, start: at, end: at + piece.len() };
            assert(scan(x, at) == after(seq![s2], scan(x, at + piece.len())));
            let both = seq![s2] + again;
            assert(both.skip(1) =~= again);
            assert(x.subrange(at, at + piece.len()) =~= piece);
            assert(kept(x, both) == piece + kept(x, again));
        }
    }
}

proof fn lemma_no_tags(d: Seq<u8>, spans: Seq<Span>)
    requires
        forall|i: int| 0 <= i < spans.len() ==> !is_metadata((#[trigger] spans[i]).marker),
    ensures
        all_tags(d, spans) == Seq::<TagText>::empty(),
    decreases spans.len(),
{
    if spans.len() > 0 {
        assert(!is_metadata(spans[0].marker));
        lemma_no_tags(d, spans.skip(1));
    }
}

/// The compressed image of a JPEG file, from its start marker to the end of the file.
pub open spec fn image(d: Seq<u8>) -> Seq<u8> {
    d.subrange(segments(d)->Ok_0.1, d.len() as int)
}

/// A cleaned file shows no metadata, cleaning it again changes nothing, and its image and
/// the segments that say how the image looks are those of the original, byte for byte.
///
/// The law does not speak of a file of which nothing but the signature is left: that is no
/// JPEG any more.
pub proof fn cleaned_file_is_clean(d: Seq<u8>)
    requires
        cleaned(d) is Ok,
        cleaned(d)->Ok_0.len() >= 4,
    ensures
        ({
            let out = cleaned(d)->Ok_0;
            &&& tags(out) == Ok::<_, Seq<char>>(Seq::<TagText>::empty())
            &&& cleaned(out) == Ok::<_, Seq<char>>(out)
            &&& image(out) == image(d)
            &&& kept(out, segments(out)->Ok_0.0) == kept(d, segments(d)->Ok_0.0)
        }),
{
    let out = cleaned(d)->Ok_0;
    lemma_scan_cleaned(d, 2, d.take(2));
    let (again, start) = scan(out, 2)->Ok_0;
    assert(segments(out) == scan(out, 2));
    lemma_no_tags(out, again);
    assert(out.take(2) =~= d.take(2));
}

/// What is kept of a tail is no longer than the tail, and shorter where metadata is in it.
proof fn lemma_kept_len(d: Seq<u8>, pos: int)
    requires
        0 <= pos <= d.len(),
        scan(d, pos) is Ok,
    ensures
        ({
            let (found, image) = scan(d, pos)->Ok_0;
            &&& pos <= image <= d.len()
            &&& kept(d, found).len() <= image - pos
            &&& kept(d, found).len() == image - pos ==> forall|i: int|
                0 <= i < found.len() ==> !is_metadata((#[trigger] found[i]).marker)
        }),
    decreases d.len() - pos,
{
    let (found, image) = scan(d, pos)->Ok_0;
    if segments_done(d, pos) {
    } else if d[pos + 1] == 0xFF {
        lemma_kept_len(d, pos + 1);
    } else if stands_alone(d[pos + 1]) {
        lemma_kept_len(d, pos + 2);
    } else {
        let end = pos + 2 + bytes::be16(d, pos + 2);
        let s = Span { marker: d[pos + 1], start: pos, end };
        let rest = scan(d, end)->Ok_0.0;
        lemma_kept_len(d, end);
        assert(found =~= seq![s] + rest);
        assert(found.skip(1) =~= rest);
        assert forall|i: int|
            kept(d, found).len() == image - pos && 0 <= i < found.len() implies !is_metadata(
            (#[trigger] found[i]).marker,
        ) by {
            if i > 0 {
                assert(found[i] == rest[i - 1]);
            }
        }
    }
}

/// A file that cleaning does not shorten has no metadata to show.
pub proof fn file_left_alone_is_clean(d: Seq<u8>)
    requires
        cleaned(d) is Ok,
        cleaned(d)->Ok_0.len() >= d.len(),
    ensures
        tags(d) == Ok::<_, Seq<char>>(Seq::<TagText>::empty()),
{
    lemma_kept_len(d, 2);
    lemma_no_tags(d, segments(d)->Ok_0.0);
}

/// A segment as it is laid out: its marker, its length with the two bytes of the length, and
/// its body.
pub open spec fn laid_out(marker: u8, body: Seq<u8>) -> Seq<u8> {
    let len = body.len() + 2;
    seq![255u8, marker, (len / 256) as u8, (len % 256) as u8] + body
}

/// Segments one behind the other.
pub open spec fn row(list: Seq<(u8, Seq<u8>)>) -> Seq<u8>
    decreases list.len(),
{
    if list.len() == 0 {
        Seq::empty()
    } else {
        laid_out(list[0].0, list[0].1) + row(list.skip(1))
    }
}

/// A photo: the signature, segments, and the compressed image, which begins with the bytes
/// FF DA.
pub open spec fn photo(list: Seq<(u8, Seq<u8>)>, image: Seq<u8>) -> Seq<u8> {
    seq![255u8, 216u8] + row(list) + image
}

/// Whether segments and an image make up a photo: the markers are such that a length follows,
/// and every length fits its two bytes.
pub open spec fn makes_a_photo(list: Seq<(u8, Seq<u8>)>, image: Seq<u8>) -> bool {
    &&& forall|i: int|
        0 <= i < list.len() ==> {
            let marker = (#[trigger] list[i]).0;
            &&& marker != 255 && marker != 1 && !(208 <= marker <= 218)
            &&& list[i].1.len() <= 65533
        }
    &&& image.len() >= 2 && image[0] == 255 && image[1] == 218
}

proof fn lemma_front_filter(list: Seq<(u8, Seq<u8>)>, pred: spec_fn((u8, Seq<u8>)) -> bool)
    requires
        list.len() > 0,
    ensures
        list.filter(pred) == (if pred(list[0]) {
            seq![list[0]] + list.skip(1).filter(pred)
        } else {
            list.skip(1).filter(pred)
        }),
{
    let first = seq![list[0]];
    assert(list =~= first + list.skip(1));
    Seq::filter_distributes_over_add(first, list.skip(1), pred);
    reveal(Seq::filter);
    assert(first.drop_last() =~= Seq::empty());
    assert(first.drop_last().filter(pred) =~= Seq::empty());
    if pred(list[0]) {
        assert(first.filter(pred) =~= first);
    } else {
        assert(first.filter(pred) =~= Seq::empty());
        assert(Seq::empty() + list.skip(1).filter(pred) =~= list.skip(1).filter(pred));
    }
}

/// What a list of lines of the segments says, by marker and body.
pub open spec fn lines_of(list: Seq<(u8, Seq<u8>)>) -> Seq<TagText>
    decreases list.len(),
{
    if list.len() == 0 {
        Seq::empty()
    } else {
        lines_of_one(list[0].0, list[0].1) + lines_of(list.skip(1))
    }
}

/// What one segment is shown as: a block of EXIF behind "Exif" and two zero bytes, a packet of
/// XMP behind its address and a zero byte, a block of IPTC, a comment.
pub open spec fn lines_of_one(marker: u8, body: Seq<u8>) -> Seq<TagText> {
    if marker == 225 && body.len() >= 6 && body.take(6) == seq![69u8, 120, 105, 102, 0, 0] {
        exif::tags(body.skip(6))
    } else if marker == 225 && body.len() >= 29 && body.take(29) == seq![
        104u8, 116, 116, 112, 58, 47, 47, 110, 115, 46, 97, 100, 111, 98, 101, 46, 99, 111, 109, 47,
        120, 97, 112, 47, 49, 46, 48, 47, 0,
    ] {
        seq![
            TagText {
                name: "XMP"@,
                value: "присутствует, "@ + text::decimal(body.len()) + " Б"@,
            },
        ]
    } else if marker == 237 {
        seq![
            TagText {
                name: "IPTC / Photoshop"@,
                value: "присутствует, "@ + text::decimal(body.len()) + " Б"@,
            },
        ]
    } else if marker == 254 {
        seq![TagText { name: "Комментарий"@, value: text::value_text(body) }]
    } else {
        Seq::empty()
    }
}

proof fn lemma_segment_lines(d: Seq<u8>, s: Span, body: Seq<u8>)
    requires
        body == d.subrange(s.start + 4, s.end),
    ensures
        segment_tags(d, s) == lines_of_one(s.marker, body),
{
    assert(EXIF_MARK@ =~= seq![69u8, 120, 105, 102, 0, 0]);
    assert(XMP_MARK@ =~= seq![
        104u8, 116, 116, 112, 58, 47, 47, 110, 115, 46, 97, 100, 111, 98, 101, 46, 99, 111, 109, 47,
        120, 97, 112, 47, 49, 46, 48, 47, 0,
    ]);
    assert(body.len() >= 6 ==> body.subrange(0, 6) =~= body.take(6));
    assert(body.len() >= 29 ==> body.subrange(0, 29) =~= body.take(29));
}

/// Reading and cleaning the rest of a photo, from a segment on.
proof fn lemma_photo(d: Seq<u8>, pos: int, list: Seq<(u8, Seq<u8>)>, image: Seq<u8>)
    requires
        makes_a_photo(list, image),
        0 <= pos <= d.len(),
        d.subrange(pos, d.len() as int) == row(list) + image,
    ensures
        scan(d, pos) is Ok,
        ({
            let (found, at) = scan(d, pos)->Ok_0;
            let rest = list.filter(
                |s: (u8, Seq<u8>)|
                    !(s.0 == 225 || 227 <= s.0 <= 237 || s.0 == 239 || s.0 == 254),
            );
            &&& 0 <= at <= d.len()
            &&& d.subrange(at, d.len() as int) == image
            &&& kept(d, found) == row(rest)
            &&& all_tags(d, found) == lines_of(list)
        }),
    decreases list.len(),
{
    let n = d.len() as int;
    let tail = d.subrange(pos, n);
    let pred = |s: (u8, Seq<u8>)| !(s.0 == 225 || 227 <= s.0 <= 237 || s.0 == 239 || s.0 == 254);
    if list.len() == 0 {
        assert(row(list) + image =~= image);
        assert(d[pos] == tail[0] && d[pos + 1] == tail[1]);
        reveal(Seq::filter);
        assert(list.filter(pred) =~= list);
    } else {
        let (marker, body) = list[0];
        let piece = laid_out(marker, body);
        let end = pos + piece.len();
        let rest = list.skip(1);
        assert(tail =~= piece + (row(rest) + image));
        assert(d[pos] == tail[0] && d[pos + 1] == tail[1] && d[pos + 2] == tail[2] && d[pos + 3]
            == tail[3]);
        assert(tail[0] == piece[0] && tail[1] == piece[1] && tail[2] == piece[2] && tail[3]
            == piece[3]);
        assert(bytes::be16(d, pos + 2) == body.len() + 2);
        assert(d.subrange(end, n) =~= row(rest) + image) by {
            assert(d.subrange(end, n) =~= tail.skip(piece.len() as int));
        }
        assert forall|i: int| 0 <= i < rest.len() implies {
            let m = (#[trigger] rest[i]).0;
            m != 255 && m != 1 && !(208 <= m <= 218) && rest[i].1.len() <= 65533
        } by {
            assert(rest[i] == list[i + 1]);
        }
        lemma_photo(d, end, rest, image);
        lemma_front_filter(list, pred);
        let s = Span { marker, start: pos, end };
        let found = scan(d, end)->Ok_0.0;
        assert(scan(d, pos) == after(seq![s], scan(d, end)));
        let both = seq![s] + found;
        assert(both.skip(1) =~= found);
        assert(d.subrange(pos, end) =~= piece) by {
            assert(tail.take(piece.len() as int) =~= piece);
            assert(d.subrange(pos, end) =~= tail.take(piece.len() as int));
        }
        assert(d.subrange(pos + 4, end) =~= body) by {
            assert(d.subrange(pos + 4, end) =~= piece.skip(4));
        }
        lemma_segment_lines(d, s, body);
        if pred(list[0]) {
            let left = seq![list[0]] + rest.filter(pred);
            assert(left.skip(1) =~= rest.filter(pred));
            assert(row(left) == piece + row(rest.filter(pred)));
            assert(kept(d, both) == piece + kept(d, found));
        }
    }
}

/// Cleaning takes the metadata out of a photo and nothing else: every segment but APP1, APP3 to
/// APP13, APP15 and comments stays as it is and where it is (the tables, the frame header, the
/// colours among them), and so does the image.
pub proof fn cleaning_loses_nothing_but_metadata(list: Seq<(u8, Seq<u8>)>, image: Seq<u8>)
    requires
        makes_a_photo(list, image),
    ensures
        cleaned(photo(list, image)) == Ok::<_, Seq<char>>(
            photo(
                list.filter(
                    |s: (u8, Seq<u8>)|
                        !(s.0 == 0xE1 || 0xE3 <= s.0 <= 0xED || s.0 == 0xEF || s.0 == 0xFE),
                ),
                image,
            ),
        ),
{
    let d = photo(list, image);
    let pred = |s: (u8, Seq<u8>)| !(s.0 == 225 || 227 <= s.0 <= 237 || s.0 == 239 || s.0 == 254);
    assert(d.subrange(2, d.len() as int) =~= row(list) + image);
    lemma_photo(d, 2, list, image);
    assert(d.take(2) =~= seq![255u8, 216u8]);
    assert(list.filter(
        |s: (u8, Seq<u8>)| !(s.0 == 0xE1 || 0xE3 <= s.0 <= 0xED || s.0 == 0xEF || s.0 == 0xFE),
    ) == list.filter(pred));
}

/// Reading shows all that the segments of a photo tell, in their order, and nothing else.
pub proof fn photo_is_read_in_full(list: Seq<(u8, Seq<u8>)>, image: Seq<u8>)
    requires
        makes_a_photo(list, image),
    ensures
        tags(photo(list, image)) == Ok::<_, Seq<char>>(lines_of(list)),
{
    let d = photo(list, image);
    assert(d.subrange(2, d.len() as int) =~= row(list) + image);
    lemma_photo(d, 2, list, image);
}

/// Segments that stand in front of what cannot be read are no help: nothing can be read.
proof fn lemma_broken(d: Seq<u8>, pos: int, list: Seq<(u8, Seq<u8>)>, rest: Seq<u8>)
    requires
        forall|i: int|
            0 <= i < list.len() ==> {
                let marker = (#[trigger] list[i]).0;
                &&& marker != 255 && marker != 1 && !(208 <= marker <= 218)
                &&& list[i].1.len() <= 65533
            },
        0 <= pos <= d.len(),
        d.subrange(pos, d.len() as int) == row(list) + rest,
        scan(d, d.len() - rest.len()) is Err,
    ensures
        scan(d, pos) is Err,
    decreases list.len(),
{
    let n = d.len() as int;
    let tail = d.subrange(pos, n);
    if list.len() == 0 {
        assert(row(list) + rest =~= rest);
        assert(tail.len() == rest.len());
    } else {
        let (marker, body) = list[0];
        let piece = laid_out(marker, body);
        let end = pos + piece.len();
        let more = list.skip(1);
        assert(tail =~= piece + (row(more) + rest));
        assert(d[pos] == tail[0] && d[pos + 1] == tail[1] && d[pos + 2] == tail[2] && d[pos + 3]
            == tail[3]);
        assert(tail[0] == piece[0] && tail[1] == piece[1] && tail[2] == piece[2] && tail[3]
            == piece[3]);
        assert(bytes::be16(d, pos + 2) == body.len() + 2);
        assert(d.subrange(end, n) =~= row(more) + rest) by {
            assert(d.subrange(end, n) =~= tail.skip(piece.len() as int));
        }
        assert forall|i: int| 0 <= i < more.len() implies {
            let m = (#[trigger] more[i]).0;
            m != 255 && m != 1 && !(208 <= m <= 218) && more[i].1.len() <= 65533
        } by {
            assert(more[i] == list[i + 1]);
        }
        lemma_broken(d, end, more, rest);
    }
}

/// What is no JPEG is refused, and so is a photo that breaks off inside a segment: neither is
/// read, and neither is written over.
pub proof fn broken_photo_is_refused(
    d: Seq<u8>,
    list: Seq<(u8, Seq<u8>)>,
    marker: u8,
    missing: int,
    body: Seq<u8>,
)
    requires
        forall|i: int|
            0 <= i < list.len() ==> {
                let m = (#[trigger] list[i]).0;
                &&& m != 255 && m != 1 && !(208 <= m <= 218)
                &&& list[i].1.len() <= 65533
            },
        marker != 255 && marker != 1 && !(208 <= marker <= 218),
        0 < missing,
        body.len() + missing + 2 < 65536,
    ensures
        d.len() < 4 || d[0] != 0xFF || d[1] != 0xD8 ==> tags(d) is Err && cleaned(d) is Err,
        ({
            let len = body.len() + missing + 2;
            let cut = seq![255u8, 216u8] + row(list) + (seq![
                255u8,
                marker,
                (len / 256) as u8,
                (len % 256) as u8,
            ] + body);
            tags(cut) is Err && cleaned(cut) is Err
        }),
{
    let len = body.len() + missing + 2;
    let rest = seq![255u8, marker, (len / 256) as u8, (len % 256) as u8] + body;
    let cut = seq![255u8, 216u8] + row(list) + rest;
    let at = cut.len() - rest.len();
    assert(cut.subrange(2, cut.len() as int) =~= row(list) + rest);
    assert(cut[at] == rest[0] && cut[at + 1] == rest[1] && cut[at + 2] == rest[2] && cut[at + 3]
        == rest[3]);
    assert(bytes::be16(cut, at + 2) == len);
    lemma_broken(cut, 2, list, rest);
}

/// Segments one behind the other, each behind so many bytes FF that fill the space.
pub open spec fn spaced_row(list: Seq<(nat, u8, Seq<u8>)>) -> Seq<u8>
    decreases list.len(),
{
    if list.len() == 0 {
        Seq::empty()
    } else {
        Seq::new(list[0].0, |i: int| 255u8) + laid_out(list[0].1, list[0].2) + spaced_row(
            list.skip(1),
        )
    }
}

/// The segments without the space.
pub open spec fn unspaced(list: Seq<(nat, u8, Seq<u8>)>) -> Seq<(u8, Seq<u8>)> {
    list.map_values(|s: (nat, u8, Seq<u8>)| (s.1, s.2))
}

proof fn lemma_space_is_passed(d: Seq<u8>, pos: int, n: int)
    requires
        0 <= pos,
        0 <= n,
        pos + n + 1 < d.len(),
        forall|i: int| 0 <= i <= n ==> #[trigger] d[pos + i] == 255,
    ensures
        scan(d, pos) == scan(d, pos + n),
    decreases n,
{
    if n > 0 {
        assert(d[pos + 0] == 255 && d[pos + 1] == 255);
        assert forall|i: int| 0 <= i <= n - 1 implies #[trigger] d[(pos + 1) + i] == 255 by {
            assert(d[pos + (i + 1)] == 255);
        }
        lemma_space_is_passed(d, pos + 1, n - 1);
    }
}

proof fn lemma_spaced_photo(d: Seq<u8>, pos: int, list: Seq<(nat, u8, Seq<u8>)>, image: Seq<u8>)
    requires
        makes_a_photo(unspaced(list), image),
        0 <= pos <= d.len(),
        d.subrange(pos, d.len() as int) == spaced_row(list) + image,
    ensures
        scan(d, pos) is Ok,
        ({
            let (found, at) = scan(d, pos)->Ok_0;
            let rest = unspaced(list).filter(
                |s: (u8, Seq<u8>)|
                    !(s.0 == 225 || 227 <= s.0 <= 237 || s.0 == 239 || s.0 == 254),
            );
            &&& 0 <= at <= d.len()
            &&& d.subrange(at, d.len() as int) == image
            &&& kept(d, found) == row(rest)
            &&& all_tags(d, found) == lines_of(unspaced(list))
        }),
    decreases list.len(),
{
    let n = d.len() as int;
    let tail = d.subrange(pos, n);
    let plain = unspaced(list);
    let pred = |s: (u8, Seq<u8>)| !(s.0 == 225 || 227 <= s.0 <= 237 || s.0 == 239 || s.0 == 254);
    if list.len() == 0 {
        assert(spaced_row(list) + image =~= image);
        assert(plain =~= Seq::empty());
        assert(row(plain) + image =~= image);
        lemma_photo(d, pos, plain, image);
    } else {
        let (space, marker, body) = list[0];
        assert(plain[0] == (marker, body));
        let gap = Seq::new(space, |i: int| 255u8);
        let piece = laid_out(marker, body);
        let at = pos + space;
        let end = at + piece.len();
        let rest = list.skip(1);
        assert(unspaced(rest) =~= plain.skip(1));
        assert(tail =~= gap + piece + (spaced_row(rest) + image));
        assert forall|i: int| 0 <= i <= space implies #[trigger] d[pos + i] == 255 by {
            assert(d[pos + i] == tail[i]);
            if i < space {
                assert(tail[i] == gap[i]);
            } else {
                assert(tail[i] == piece[0]);
            }
        }
        assert(d.subrange(at, end) =~= piece) by {
            assert(tail.subrange(space as int, space as int + piece.len()) =~= piece);
            assert(d.subrange(at, end) =~= tail.subrange(space as int, space as int + piece.len()));
        }
        let here = d.subrange(at, end);
        assert(here[0] == d[at] && here[1] == d[at + 1] && here[2] == d[at + 2] && here[3] == d[at
            + 3]);
        lemma_space_is_passed(d, pos, space as int);
        assert(bytes::be16(d, at + 2) == body.len() + 2);
        assert(d.subrange(end, n) =~= spaced_row(rest) + image) by {
            assert(d.subrange(end, n) =~= tail.skip(space as int + piece.len()));
        }
        assert forall|i: int| 0 <= i < unspaced(rest).len() implies {
            let m = (#[trigger] unspaced(rest)[i]).0;
            m != 255 && m != 1 && !(208 <= m <= 218) && unspaced(rest)[i].1.len() <= 65533
        } by {
            assert(unspaced(rest)[i] == plain[i + 1]);
        }
        lemma_spaced_photo(d, end, rest, image);
        lemma_front_filter(plain, pred);
        let s = Span { marker, start: at, end };
        let found = scan(d, end)->Ok_0.0;
        assert(scan(d, at) == after(seq![s], scan(d, end)));
        let both = seq![s] + found;
        assert(both.skip(1) =~= found);
        assert(d.subrange(at + 4, end) =~= body) by {
            assert(d.subrange(at + 4, end) =~= piece.skip(4));
        }
        lemma_segment_lines(d, s, body);
        if pred(plain[0]) {
            let left = seq![plain[0]] + plain.skip(1).filter(pred);
            assert(left.skip(1) =~= plain.skip(1).filter(pred));
            assert(row(left) == piece + row(plain.skip(1).filter(pred)));
            assert(kept(d, both) == piece + kept(d, found));
        }
    }
}

/// Bytes FF that fill the space in front of segments change nothing of what is read of a photo
/// and of what is left of it.
pub proof fn space_between_segments_counts_for_nothing(
    list: Seq<(nat, u8, Seq<u8>)>,
    image: Seq<u8>,
)
    requires
        makes_a_photo(unspaced(list), image),
    ensures
        ({
            let d = seq![255u8, 216u8] + spaced_row(list) + image;
            &&& cleaned(d) == cleaned(photo(unspaced(list), image))
            &&& tags(d) == tags(photo(unspaced(list), image))
        }),
{
    let d = seq![255u8, 216u8] + spaced_row(list) + image;
    assert(d.subrange(2, d.len() as int) =~= spaced_row(list) + image);
    lemma_spaced_photo(d, 2, list, image);
    assert(d.take(2) =~= seq![255u8, 216u8]);
    let plain = photo(unspaced(list), image);
    assert(plain.subrange(2, plain.len() as int) =~= row(unspaced(list)) + image);
    lemma_photo(plain, 2, unspaced(list), image);
    assert(plain.take(2) =~= seq![255u8, 216u8]);
}

} // verus!
