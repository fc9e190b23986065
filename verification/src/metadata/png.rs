//! PNG: a signature and a run of chunks up to the closing one.
use crate::bytes;
use crate::metadata::exif;
use crate::metadata::tag;
use crate::metadata::tag::{Tag, TagText};
use crate::text;
use vstd::prelude::*;
use vstd::slice::slice_subrange;

verus! {

/// The eight bytes that every PNG file begins with.
pub const PNG_SIGNATURE: [u8; 8] = [0x89, 0x50, 0x4E, 0x47, 0x0D, 0x0A, 0x1A, 0x0A];

// The chunk types that matter here, each as the big-endian number of its four letters.

/// "IEND", which closes the file.
pub const IEND: u32 = 0x4945_4E44;

/// "tEXt": a key, a zero byte and a value.
pub const TEXT: u32 = 0x7445_5874;

/// "zTXt": a key and a compressed value.
pub const ZTXT: u32 = 0x7A54_5874;

/// "iTXt": a key and a value in UTF-8.
pub const ITXT: u32 = 0x6954_5874;

/// "eXIf": an EXIF block.
pub const EXIF: u32 = 0x6558_4966;

/// "tIME": when the image was changed.
pub const TIME: u32 = 0x7449_4D45;

/// A chunk: its type, and where it stands, length field and checksum included.
#[derive(Debug, Clone, Copy)]
pub struct Chunk {
    pub kind: u32,
    pub start: usize,
    pub end: usize,
}

/// A chunk in terms of unbounded positions.
pub struct Span {
    pub kind: u32,
    pub start: int,
    pub end: int,
}

impl View for Chunk {
    type V = Span;

    open spec fn view(&self) -> Span {
        Span { kind: self.kind, start: self.start as int, end: self.end as int }
    }
}

pub open spec fn spans(chunks: Seq<Chunk>) -> Seq<Span> {
    chunks.map_values(|c: Chunk| c@)
}

/// The chunk whose length field stands at `pos`.
pub open spec fn chunk_at(d: Seq<u8>, pos: int) -> Span {
    Span {
        kind: bytes::be32(d, pos + 4) as u32,
        start: pos,
        end: pos + 12 + bytes::be32(d, pos),
    }
}

/// The chunks from `pos` up to the closing one, or up to where no further one fits.
pub open spec fn scan(d: Seq<u8>, pos: int) -> Result<Seq<Span>, Seq<char>>
    decreases d.len() - pos,
{
    if pos < 0 || pos + 8 > d.len() {
        Ok(Seq::empty())
    } else if chunk_at(d, pos).end > usize::MAX {
        Err("PNG повреждён: неправдоподобная длина чанка."@)
    } else if chunk_at(d, pos).end > d.len() {
        Err("PNG повреждён: чанк выходит за конец файла."@)
    } else if chunk_at(d, pos).kind == IEND {
        Ok(seq![chunk_at(d, pos)])
    } else {
        after(seq![chunk_at(d, pos)], scan(d, chunk_at(d, pos).end))
    }
}

/// An outcome of [`scan`] with `first` put in front of its chunks.
pub open spec fn after(
    first: Seq<Span>,
    rest: Result<Seq<Span>, Seq<char>>,
) -> Result<Seq<Span>, Seq<char>> {
    match rest {
        Ok(spans) => Ok(first + spans),
        Err(e) => Err(e),
    }
}

/// The chunks of a PNG file.
pub open spec fn chunks(d: Seq<u8>) -> Result<Seq<Span>, Seq<char>> {
    if !bytes::has_at(d, 0, PNG_SIGNATURE@) {
        Err("Это не PNG: файл не начинается с сигнатуры PNG."@)
    } else {
        scan(d, 8)
    }
}

/// The chunks that survive cleaning: those that make up the image ("IHDR", "PLTE", "IDAT",
/// "IEND"), those that say how it looks ("tRNS", "gAMA", "cHRM", "sRGB", "iCCP", "sBIT",
/// "bKGD", "pHYs") and those of an animation ("acTL", "fcTL", "fdAT").
pub open spec fn survives(kind: u32) -> bool {
    ||| kind == 0x4948_4452
    ||| kind == 0x504C_5445
    ||| kind == 0x4944_4154
    ||| kind == IEND
    ||| kind == 0x7452_4E53
    ||| kind == 0x6741_4D41
    ||| kind == 0x6348_524D
    ||| kind == 0x7352_4742
    ||| kind == 0x6943_4350
    ||| kind == 0x7342_4954
    ||| kind == 0x624B_4744
    ||| kind == 0x7048_5973
    ||| kind == 0x6163_544C
    ||| kind == 0x6663_544C
    ||| kind == 0x6664_4154
}

/// The moment that a "tIME" body holds: year, month, day, hour, minute, second.
pub open spec fn moment(body: Seq<u8>) -> Seq<char> {
    text::padded(bytes::be16(body, 0) as nat, 4).push('-') + text::padded(body[2] as nat, 2).push(
        '-',
    ) + text::padded(body[3] as nat, 2).push(' ') + text::padded(body[4] as nat, 2).push(':')
        + text::padded(body[5] as nat, 2).push(':') + text::padded(body[6] as nat, 2)
}

/// The tags of one chunk.
pub open spec fn chunk_tags(d: Seq<u8>, s: Span) -> Seq<TagText> {
    let body = d.subrange(s.start + 8, s.end - 4);
    let cut = text::zero_from(body, 0);
    let key = text::value_text(body.take(cut));
    if s.kind == TEXT {
        let value = if cut < body.len() {
            body.skip(cut + 1)
        } else {
            Seq::empty()
        };
        seq![tag::said(key, text::value_text(value))]
    } else if s.kind == ZTXT {
        seq![tag::said(key, "текст (сжатый)"@)]
    } else if s.kind == ITXT {
        seq![tag::said(key, "текст (UTF-8)"@)]
    } else if s.kind == EXIF {
        exif::tags(body)
    } else if s.kind == TIME && body.len() >= 7 {
        seq![tag::said("Изменён"@, moment(body))]
    } else {
        Seq::empty()
    }
}

/// The tags of all chunks, in file order.
pub open spec fn all_tags(d: Seq<u8>, spans: Seq<Span>) -> Seq<TagText>
    decreases spans.len(),
{
    if spans.len() == 0 {
        Seq::empty()
    } else {
        chunk_tags(d, spans[0]) + all_tags(d, spans.skip(1))
    }
}

/// The tags of a PNG file.
pub open spec fn tags(d: Seq<u8>) -> Result<Seq<TagText>, Seq<char>> {
    match chunks(d) {
        Ok(spans) => Ok(all_tags(d, spans)),
        Err(e) => Err(e),
    }
}

/// The bytes of the chunks that survive.
pub open spec fn kept(d: Seq<u8>, spans: Seq<Span>) -> Seq<u8>
    decreases spans.len(),
{
    if spans.len() == 0 {
        Seq::empty()
    } else if survives(spans[0].kind) {
        d.subrange(spans[0].start, spans[0].end) + kept(d, spans.skip(1))
    } else {
        kept(d, spans.skip(1))
    }
}

/// A PNG file without its metadata: the signature and the chunks that survive.
pub open spec fn cleaned(d: Seq<u8>) -> Result<Seq<u8>, Seq<char>> {
    match chunks(d) {
        Ok(spans) => Ok(PNG_SIGNATURE@ + kept(d, spans)),
        Err(e) => Err(e),
    }
}

/// Whether every chunk lies inside `len` bytes.
pub open spec fn inside(spans: Seq<Span>, len: int) -> bool {
    forall|i: int|
        0 <= i < spans.len() ==> 0 <= (#[trigger] spans[i]).start && spans[i].start + 12
            <= spans[i].end <= len
}

pub fn png_survives(kind: u32) -> (r: bool)
    ensures
        r == survives(kind),
{
    match kind {
        0x4948_4452 | 0x504C_5445 | 0x4944_4154 | 0x4945_4E44 => true,
        0x7452_4E53 | 0x6741_4D41 | 0x6348_524D | 0x7352_4742 => true,
        0x6943_4350 | 0x7342_4954 | 0x624B_4744 | 0x7048_5973 => true,
        0x6163_544C | 0x6663_544C | 0x6664_4154 => true,
        _ => false,
    }
}

pub fn png_chunks(data: &[u8]) -> (r: Result<Vec<Chunk>, String>)
    ensures
        match r {
            Ok(found) => {
                &&& chunks(data@) == Ok::<_, Seq<char>>(spans(found@))
                &&& inside(spans(found@), data@.len() as int)
            },
            Err(e) => chunks(data@) == Err::<Seq<Span>, _>(e@),
        },
{
    if !bytes::matches_at(data, 0, PNG_SIGNATURE.as_slice()) {
        return Err("Это не PNG: файл не начинается с сигнатуры PNG.".to_owned());
    }
    let len = data.len();
    let mut found: Vec<Chunk> = Vec::new();
    let mut pos: usize = 8;
    assert(spans(found@) =~= Seq::empty());
    proof {
        lemma_after_none(scan(data@, 8));
    }
    while bytes::fits(len, pos, 8)
        invariant
            8 <= len == data@.len(),
            8 <= pos <= len,
            chunks(data@) == after(spans(found@), scan(data@, pos as int)),
            inside(spans(found@), len as int),
        decreases len - pos,
    {
        let (size, kind): (u32, u32) = match (
            bytes::be_u32(data, pos),
            bytes::be_u32(data, pos + 4),
        ) {
            (Some(size), Some(kind)) => (size, kind),
            _ => (0, 0),
        };
        let end: usize = match (size as usize).checked_add(12) {
            None => return Err("PNG повреждён: неправдоподобная длина чанка.".to_owned()),
            Some(whole) => match pos.checked_add(whole) {
                None => return Err("PNG повреждён: неправдоподобная длина чанка.".to_owned()),
                Some(end) => end,
            },
        };
        if end > len {
            return Err("PNG повреждён: чанк выходит за конец файла.".to_owned());
        }
        let ghost before = spans(found@);
        let next = Chunk { kind, start: pos, end };
        assert(next@ == chunk_at(data@, pos as int));
        found.push(next);
        assert(spans(found@) =~= before + seq![next@]);
        if kind == IEND {
            return Ok(found);
        }
        proof {
            lemma_after_after(before, seq![next@], scan(data@, end as int));
        }
        pos = end;
    }
    assert(spans(found@) + Seq::<Span>::empty() =~= spans(found@));
    Ok(found)
}

proof fn lemma_after_none(rest: Result<Seq<Span>, Seq<char>>)
    ensures
        after(Seq::empty(), rest) == rest,
{
    if let Ok(spans) = rest {
        assert(Seq::<Span>::empty() + spans =~= spans);
    }
}

proof fn lemma_after_after(a: Seq<Span>, b: Seq<Span>, rest: Result<Seq<Span>, Seq<char>>)
    ensures
        after(a, after(b, rest)) == after(a + b, rest),
{
    if let Ok(spans) = rest {
        assert(a + (b + spans) =~= (a + b) + spans);
    }
}

fn moment_text(body: &[u8]) -> (r: String)
    requires
        body@.len() >= 7,
    ensures
        r@ == moment(body@),
{
    let year: u16 = match bytes::be_u16(body, 0) {
        Some(y) => y,
        None => 0,
    };
    let mut out = text::padded_text(year as u64, 4);
    out.push('-');
    out.append(text::padded_text(body[2] as u64, 2).as_str());
    out.push('-');
    out.append(text::padded_text(body[3] as u64, 2).as_str());
    out.push(' ');
    out.append(text::padded_text(body[4] as u64, 2).as_str());
    out.push(':');
    out.append(text::padded_text(body[5] as u64, 2).as_str());
    out.push(':');
    out.append(text::padded_text(body[6] as u64, 2).as_str());
    assert(out@ =~= moment(body@));
    out
}

/// Appends the tags of one chunk.
fn read_chunk(data: &[u8], c: Chunk, out: &mut Vec<Tag>)
    requires
        c.start + 12 <= c.end <= data@.len(),
    ensures
        tag::texts(final(out)@) == tag::texts(old(out)@) + chunk_tags(data@, c@),
{
    let body = slice_subrange(data, c.start + 8, c.end - 4);
    if c.kind == TEXT || c.kind == ZTXT || c.kind == ITXT {
        let cut = text::zero_position(body);
        let key = text::text_value(slice_subrange(body, 0, cut));
        assert(body@.subrange(0, cut as int) =~= body@.take(cut as int));
        let value: String = if c.kind == ZTXT {
            "текст (сжатый)".to_owned()
        } else if c.kind == ITXT {
            "текст (UTF-8)".to_owned()
        } else if cut < body.len() {
            let rest = slice_subrange(body, cut + 1, body.len());
            assert(rest@ =~= body@.skip(cut + 1));
            text::text_value(rest)
        } else {
            let rest = slice_subrange(body, 0, 0);
            assert(rest@ =~= Seq::empty());
            text::text_value(rest)
        };
        tag::push_tag(out, key.as_str(), value);
    } else if c.kind == EXIF {
        tag::append_tags(out, exif::read_tiff(body));
    } else if c.kind == TIME && body.len() >= 7 {
        tag::push_tag(out, "Изменён", moment_text(body));
    }
    assert(tag::texts(out@) =~= tag::texts(old(out)@) + chunk_tags(data@, c@));
}

pub fn read_png(data: &[u8]) -> (r: Result<Vec<Tag>, String>)
    ensures
        tag::same(r, tags(data@)),
{
    let found = match png_chunks(data) {
        Ok(found) => found,
        Err(e) => return Err(e),
    };
    let ghost all = spans(found@);
    let mut out: Vec<Tag> = Vec::new();
    let mut i: usize = 0;
    assert(tag::texts(out@) =~= Seq::empty());
    assert(all.skip(0) =~= all);
    while i < found.len()
        invariant
            i <= found@.len(),
            all == spans(found@),
            inside(all, data@.len() as int),
            all_tags(data@, all) =~= tag::texts(out@) + all_tags(data@, all.skip(i as int)),
        decreases found@.len() - i,
    {
        let c = found[i];
        proof {
            assert(all[i as int] == c@);
            assert(all.skip(i as int)[0] == c@);
            assert(all.skip(i as int).skip(1) =~= all.skip(i + 1));
        }
        read_chunk(data, c, &mut out);
        i += 1;
    }
    assert(all_tags(data@, all.skip(found@.len() as int)) =~= Seq::empty());
    Ok(out)
}

pub fn strip_png(data: &[u8]) -> (r: Result<Vec<u8>, String>)
    ensures
        bytes::same(r, cleaned(data@)),
{
    let found = match png_chunks(data) {
        Ok(found) => found,
        Err(e) => return Err(e),
    };
    let ghost all = spans(found@);
    let mut out: Vec<u8> = Vec::with_capacity(data.len());
    out.extend_from_slice(PNG_SIGNATURE.as_slice());
    assert(out@ =~= PNG_SIGNATURE@);
    assert(all.skip(0) =~= all);
    let mut i: usize = 0;
    while i < found.len()
        invariant
            i <= found@.len(),
            all == spans(found@),
            inside(all, data@.len() as int),
            PNG_SIGNATURE@ + kept(data@, all) =~= out@ + kept(data@, all.skip(i as int)),
        decreases found@.len() - i,
    {
        let c = found[i];
        proof {
            assert(all[i as int] == c@);
            assert(all.skip(i as int)[0] == c@);
            assert(all.skip(i as int).skip(1) =~= all.skip(i + 1));
        }
        if png_survives(c.kind) {
            bytes::push_range(&mut out, data, c.start, c.end);
        }
        i += 1;
    }
    assert(kept(data@, all.skip(found@.len() as int)) =~= Seq::empty());
    Ok(out)
}

/// Scanning a cleaned tail: `p` stands for what precedes it in the cleaned file.
proof fn lemma_scan_cleaned(d: Seq<u8>, pos: int, p: Seq<u8>)
    requires
        0 <= pos <= d.len(),
        scan(d, pos) is Ok,
        p.len() + kept(d, scan(d, pos)->Ok_0).len() <= usize::MAX,
    ensures
        ({
            let found = scan(d, pos)->Ok_0;
            let x = p + kept(d, found);
            &&& scan(x, p.len() as int) is Ok
            &&& {
                let again = scan(x, p.len() as int)->Ok_0;
                &&& kept(x, again) == kept(d, found)
                &&& forall|i: int| 0 <= i < again.len() ==> survives((#[trigger] again[i]).kind)
            }
        }),
    decreases d.len() - pos,
{
    let found = scan(d, pos)->Ok_0;
    let at = p.len() as int;
    let x = p + kept(d, found);
    if pos + 8 <= d.len() {
        let s = chunk_at(d, pos);
        let piece = d.subrange(pos, s.end);
        let rest = if s.kind == IEND {
            Seq::empty()
        } else {
            scan(d, s.end)->Ok_0
        };
        assert(found =~= seq![s] + rest);
        assert(found.skip(1) =~= rest);
        if survives(s.kind) {
            assert(x =~= (p + piece) + kept(d, rest));
            lemma_same_word(x, at, d, pos, piece);
            lemma_same_word(x, at + 4, d, pos + 4, piece.skip(4));
            let s2 = chunk_at(x, at);
            assert(s2 == Span { kind: s.kind, start: at, end: at + piece.len() });
            assert(x.subrange(at, at + piece.len()) =~= piece);
            if s.kind == IEND {
                assert(scan(x, at) == Ok::<_, Seq<char>>(seq![s2]));
                assert(kept(x, seq![s2].skip(1)) =~= Seq::empty());
                assert(kept(d, found.skip(1)) =~= Seq::empty());
            } else {
                lemma_scan_cleaned(d, s.end, p + piece);
                let again = scan(x, at + piece.len())->Ok_0;
                assert(scan(x, at) == Ok::<_, Seq<char>>(seq![s2] + again));
                assert((seq![s2] + again).skip(1) =~= again);
            }
        } else {
            lemma_scan_cleaned(d, s.end, p);
        }
    } else {
        assert(x =~= p);
    }
}

/// Where `x` and `d` hold the same bytes, they hold the same number.
proof fn lemma_same_word(x: Seq<u8>, at: int, d: Seq<u8>, pos: int, piece: Seq<u8>)
    requires
        0 <= at <= at + 4 <= x.len(),
        0 <= pos <= pos + 4 <= d.len(),
        piece.len() >= 4,
        forall|k: int| 0 <= k < 4 ==> x[at + k] == #[trigger] piece[k],
        forall|k: int| 0 <= k < 4 ==> d[pos + k] == #[trigger] piece[k],
    ensures
        bytes::be32(x, at) == bytes::be32(d, pos),
{
    assert(piece[0] == x[at + 0] && piece[1] == x[at + 1] && piece[2] == x[at + 2] && piece[3]
        == x[at + 3]);
}

proof fn lemma_no_tags(d: Seq<u8>, spans: Seq<Span>)
    requires
        forall|i: int| 0 <= i < spans.len() ==> survives((#[trigger] spans[i]).kind),
    ensures
        all_tags(d, spans) == Seq::<TagText>::empty(),
    decreases spans.len(),
{
    if spans.len() > 0 {
        assert(survives(spans[0].kind));
        lemma_no_tags(d, spans.skip(1));
    }
}

/// A cleaned file shows no metadata, cleaning it again changes nothing, and the chunks that
/// make up the image are those of the original, byte for byte.
pub proof fn cleaned_file_is_clean(d: Seq<u8>)
    requires
        cleaned(d) is Ok,
        cleaned(d)->Ok_0.len() <= usize::MAX,
    ensures
        ({
            let out = cleaned(d)->Ok_0;
            &&& tags(out) == Ok::<_, Seq<char>>(Seq::<TagText>::empty())
            &&& cleaned(out) == Ok::<_, Seq<char>>(out)
            &&& kept(out, chunks(out)->Ok_0) == kept(d, chunks(d)->Ok_0)
        }),
{
    let out = cleaned(d)->Ok_0;
    lemma_scan_cleaned(d, 8, PNG_SIGNATURE@);
    assert(out.subrange(0, 8) =~= PNG_SIGNATURE@);
    assert(chunks(out) == scan(out, 8));
    lemma_no_tags(out, scan(out, 8)->Ok_0);
}

/// What is kept of a tail is no longer than the tail, and shorter where metadata is in it.
proof fn lemma_kept_len(d: Seq<u8>, pos: int)
    requires
        0 <= pos <= d.len(),
        scan(d, pos) is Ok,
    ensures
        ({
            let found = scan(d, pos)->Ok_0;
            &&& kept(d, found).len() <= d.len() - pos
            &&& kept(d, found).len() == d.len() - pos ==> forall|i: int|
                0 <= i < found.len() ==> survives((#[trigger] found[i]).kind)
        }),
    decreases d.len() - pos,
{
    let found = scan(d, pos)->Ok_0;
    if pos + 8 <= d.len() {
        let s = chunk_at(d, pos);
        let rest = if s.kind == IEND {
            Seq::empty()
        } else {
            scan(d, s.end)->Ok_0
        };
        if s.kind == IEND {
            assert(kept(d, rest) =~= Seq::empty());
        } else {
            lemma_kept_len(d, s.end);
        }
        assert(found =~= seq![s] + rest);
        assert(found.skip(1) =~= rest);
        assert forall|i: int|
            kept(d, found).len() == d.len() - pos && 0 <= i < found.len() implies survives(
            (#[trigger] found[i]).kind,
        ) by {
            if i > 0 {
                assert(found[i] == rest[i - 1]);
            }
        }
    }
}

/// A file that cleaning does not shorten has no metadata to show.
pub proof fn file_left_alone_is_clean(d: Seq<u8>)
    requires
        cleaned(d) is Ok,
        cleaned(d)->Ok_0.len() >= d.len(),
    ensures
        tags(d) == Ok::<_, Seq<char>>(Seq::<TagText>::empty()),
{
    lemma_kept_len(d, 8);
    lemma_no_tags(d, chunks(d)->Ok_0);
}

/// A chunk as it is laid out: the length of its body, highest byte first, the four letters of
/// its type, its body and its checksum.
pub open spec fn laid_out(kind: Seq<u8>, body: Seq<u8>, sum: Seq<u8>) -> Seq<u8> {
    let n = body.len();
    seq![
        (n / 16777216) as u8,
        (n / 65536 % 256) as u8,
        (n / 256 % 256) as u8,
        (n % 256) as u8,
    ] + kind + body + sum
}

/// Chunks one behind the other.
pub open spec fn row(list: Seq<(Seq<u8>, Seq<u8>, Seq<u8>)>) -> Seq<u8>
    decreases list.len(),
{
    if list.len() == 0 {
        Seq::empty()
    } else {
        laid_out(list[0].0, list[0].1, list[0].2) + row(list.skip(1))
    }
}

/// A picture: the signature and chunks.
pub open spec fn picture(list: Seq<(Seq<u8>, Seq<u8>, Seq<u8>)>) -> Seq<u8> {
    seq![137u8, 80, 78, 71, 13, 10, 26, 10] + row(list)
}

/// Whether chunks make up a picture: every length fits its four bytes, and none but the last
/// is of the type "IEND", which closes the picture.
pub open spec fn makes_a_picture(list: Seq<(Seq<u8>, Seq<u8>, Seq<u8>)>) -> bool {
    &&& list.len() > 0
    &&& forall|i: int|
        0 <= i < list.len() ==> {
            &&& (#[trigger] list[i]).0.len() == 4
            &&& list[i].1.len() < 4294967296
            &&& list[i].2.len() == 4
            &&& list[i].0 == seq![73u8, 69, 78, 68] <==> i == list.len() - 1
        }
}

/// What one chunk is shown as: a text by its key, a block of EXIF, the time of the last change.
pub open spec fn lines_of_one(kind: Seq<u8>, body: Seq<u8>) -> Seq<TagText> {
    let key = match body.index_of_first(0u8) {
        Some(z) => body.take(z),
        None => body,
    };
    let words = match body.index_of_first(0u8) {
        Some(z) => body.skip(z + 1),
        None => Seq::empty(),
    };
    if kind == seq![116u8, 69, 88, 116] {
        seq![TagText { name: text::value_text(key), value: text::value_text(words) }]
    } else if kind == seq![122u8, 84, 88, 116] {
        seq![TagText { name: text::value_text(key), value: "текст (сжатый)"@ }]
    } else if kind == seq![105u8, 84, 88, 116] {
        seq![TagText { name: text::value_text(key), value: "текст (UTF-8)"@ }]
    } else if kind == seq![101u8, 88, 73, 102] {
        exif::tags(body)
    } else if kind == seq![116u8, 73, 77, 69] && body.len() >= 7 {
        seq![
            TagText {
                name: "Изменён"@,
                value: text::padded((256 * body[0] + body[1]) as nat, 4) + "-"@ + text::padded(
                    body[2] as nat,
                    2,
                ) + "-"@ + text::padded(body[3] as nat, 2) + " "@ + text::padded(body[4] as nat, 2)
                    + ":"@ + text::padded(body[5] as nat, 2) + ":"@ + text::padded(
                    body[6] as nat,
                    2,
                ),
            },
        ]
    } else {
        Seq::empty()
    }
}

/// What chunks are shown as, in their order.
pub open spec fn lines_of(list: Seq<(Seq<u8>, Seq<u8>, Seq<u8>)>) -> Seq<TagText>
    decreases list.len(),
{
    if list.len() == 0 {
        Seq::empty()
    } else {
        lines_of_one(list[0].0, list[0].1) + lines_of(list.skip(1))
    }
}

proof fn lemma_front_filter(
    list: Seq<(Seq<u8>, Seq<u8>, Seq<u8>)>,
    pred: spec_fn((Seq<u8>, Seq<u8>, Seq<u8>)) -> bool,
)
    requires
        list.len() > 0,
    ensures
        list.filter(pred) == (if pred(list[0]) {
            seq![list[0]] + list.skip(1).filter(pred)
        } else {
            list.skip(1).filter(pred)
        }),
{
    let first = seq![list[0]];
    assert(list =~= first + list.skip(1));
    Seq::filter_distributes_over_add(first, list.skip(1), pred);
    reveal(Seq::filter);
    assert(first.drop_last() =~= Seq::empty());
    assert(first.drop_last().filter(pred) =~= Seq::empty());
    if pred(list[0]) {
        assert(first.filter(pred) =~= first);
    } else {
        assert(first.filter(pred) =~= Seq::empty());
        assert(Seq::empty() + list.skip(1).filter(pred) =~= list.skip(1).filter(pred));
    }
}

/// Four letters are the same as the number that they make up.
proof fn lemma_letters(kind: Seq<u8>, a: u8, b: u8, c: u8, e: u8)
    requires
        kind.len() == 4,
    ensures
        kind == seq![a, b, c, e] <==> bytes::be32(kind, 0) == a * 16777216 + b * 65536 + c * 256
            + e,
{
    assert(kind =~= seq![kind[0], kind[1], kind[2], kind[3]]);
    let other = seq![a, b, c, e];
    assert(other[0] == a && other[1] == b && other[2] == c && other[3] == e);
}

/// The types of the chunks that make up the picture and say how it looks.
pub open spec fn is_of_the_picture(kind: Seq<u8>) -> bool {
    ||| kind == seq![73u8, 72, 68, 82]  // IHDR
    ||| kind == seq![80u8, 76, 84, 69]  // PLTE
    ||| kind == seq![73u8, 68, 65, 84]  // IDAT
    ||| kind == seq![73u8, 69, 78, 68]  // IEND
    ||| kind == seq![116u8, 82, 78, 83]  // tRNS
    ||| kind == seq![103u8, 65, 77, 65]  // gAMA
    ||| kind == seq![99u8, 72, 82, 77]  // cHRM
    ||| kind == seq![115u8, 82, 71, 66]  // sRGB
    ||| kind == seq![105u8, 67, 67, 80]  // iCCP
    ||| kind == seq![115u8, 66, 73, 84]  // sBIT
    ||| kind == seq![98u8, 75, 71, 68]  // bKGD
    ||| kind == seq![112u8, 72, 89, 115]  // pHYs
    ||| kind == seq![97u8, 99, 84, 76]  // acTL
    ||| kind == seq![102u8, 99, 84, 76]  // fcTL
    ||| kind == seq![102u8, 100, 65, 84]  // fdAT
}

proof fn lemma_survivors(kind: Seq<u8>)
    requires
        kind.len() == 4,
    ensures
        survives(bytes::be32(kind, 0) as u32) == is_of_the_picture(kind),
        bytes::be32(kind, 0) == IEND <==> kind == seq![73u8, 69, 78, 68],
{
    lemma_letters(kind, 73, 72, 68, 82);
    lemma_letters(kind, 80, 76, 84, 69);
    lemma_letters(kind, 73, 68, 65, 84);
    lemma_letters(kind, 73, 69, 78, 68);
    lemma_letters(kind, 116, 82, 78, 83);
    lemma_letters(kind, 103, 65, 77, 65);
    lemma_letters(kind, 99, 72, 82, 77);
    lemma_letters(kind, 115, 82, 71, 66);
    lemma_letters(kind, 105, 67, 67, 80);
    lemma_letters(kind, 115, 66, 73, 84);
    lemma_letters(kind, 98, 75, 71, 68);
    lemma_letters(kind, 112, 72, 89, 115);
    lemma_letters(kind, 97, 99, 84, 76);
    lemma_letters(kind, 102, 99, 84, 76);
    lemma_letters(kind, 102, 100, 65, 84);
}

proof fn lemma_first_zero(b: Seq<u8>, from: int)
    requires
        0 <= from <= b.len(),
        forall|k: int| 0 <= k < from ==> b[k] != 0,
    ensures
        text::zero_from(b, from) == (match b.index_of_first(0u8) {
            Some(z) => z,
            None => b.len() as int,
        }),
    decreases b.len() - from,
{
    b.index_of_first_ensures(0u8);
    if from < b.len() {
        if b[from] == 0 {
            assert(b.contains(b[from]));
        } else {
            lemma_first_zero(b, from + 1);
        }
    } else if b.contains(0u8) {
        let k = choose|k: int| 0 <= k < b.len() && b[k] == 0;
        assert(false);
    }
}

proof fn lemma_chunk_lines(d: Seq<u8>, s: Span, kind: Seq<u8>, body: Seq<u8>)
    requires
        kind.len() == 4,
        s.kind == bytes::be32(kind, 0),
        body == d.subrange(s.start + 8, s.end - 4),
    ensures
        chunk_tags(d, s) == lines_of_one(kind, body),
{
    lemma_letters(kind, 116, 69, 88, 116);
    lemma_letters(kind, 122, 84, 88, 116);
    lemma_letters(kind, 105, 84, 88, 116);
    lemma_letters(kind, 101, 88, 73, 102);
    lemma_letters(kind, 116, 73, 77, 69);
    lemma_first_zero(body, 0);
    body.index_of_first_ensures(0u8);
    text::lemma_zero_from(body, 0);
    assert(body.take(body.len() as int) =~= body);
    reveal_strlit("-");
    reveal_strlit(":");
    reveal_strlit(" ");
    assert("-"@ =~= seq!['-']);
    assert(":"@ =~= seq![':']);
    assert(" "@ =~= seq![' ']);
    if s.kind == TIME && body.len() >= 7 {
        assert(moment(body) =~= text::padded((256 * body[0] + body[1]) as nat, 4) + "-"@
            + text::padded(body[2] as nat, 2) + "-"@ + text::padded(body[3] as nat, 2) + " "@
            + text::padded(body[4] as nat, 2) + ":"@ + text::padded(body[5] as nat, 2) + ":"@
            + text::padded(body[6] as nat, 2));
    }
}

/// A chunk that stands at `pos` is found there.
proof fn lemma_chunk_found(d: Seq<u8>, pos: int, kind: Seq<u8>, body: Seq<u8>, sum: Seq<u8>)
    requires
        kind.len() == 4,
        body.len() < 4294967296,
        sum.len() == 4,
        0 <= pos,
        pos + laid_out(kind, body, sum).len() <= d.len(),
        d.subrange(pos, pos + laid_out(kind, body, sum).len()) == laid_out(kind, body, sum),
    ensures
        laid_out(kind, body, sum).len() == body.len() + 12,
        chunk_at(d, pos) == (Span {
            kind: bytes::be32(kind, 0) as u32,
            start: pos,
            end: pos + 12 + body.len(),
        }),
        d.subrange(pos + 8, pos + 8 + body.len()) == body,
{
    let piece = laid_out(kind, body, sum);
    let m = body.len() as int;
    let end = pos + piece.len();
    assert forall|k: int| 0 <= k < piece.len() implies #[trigger] d[pos + k] == piece[k] by {
        assert(d.subrange(pos, end)[k] == piece[k]);
    }
    assert(d[pos + 0] == piece[0] && d[pos + 1] == piece[1] && d[pos + 2] == piece[2] && d[pos + 3]
        == piece[3]);
    assert(d[pos + 4] == piece[4] && d[pos + 5] == piece[5] && d[pos + 6] == piece[6] && d[pos + 7]
        == piece[7]);
    assert(piece[4] == kind[0] && piece[5] == kind[1] && piece[6] == kind[2] && piece[7]
        == kind[3]);
    assert(m / 16777216 * 16777216 + m / 65536 % 256 * 65536 + m / 256 % 256 * 256 + m % 256 == m);
    assert(bytes::be32(d, pos) == m);
    assert(piece.subrange(8, 8 + m) =~= body);
    assert(d.subrange(pos + 8, pos + 8 + m) =~= piece.subrange(8, 8 + m));
}

/// Reading and cleaning the rest of a picture, from a chunk on.
proof fn lemma_picture(
    d: Seq<u8>,
    pos: int,
    list: Seq<(Seq<u8>, Seq<u8>, Seq<u8>)>,
    junk: Seq<u8>,
    pred: spec_fn((Seq<u8>, Seq<u8>, Seq<u8>)) -> bool,
)
    requires
        makes_a_picture(list),
        d.len() <= usize::MAX,
        0 <= pos <= d.len(),
        d.subrange(pos, d.len() as int) == row(list) + junk,
        forall|i: int|
            0 <= i < list.len() ==> pred(#[trigger] list[i]) == survives(
                bytes::be32(list[i].0, 0) as u32,
            ),
        forall|i: int|
            0 <= i < list.len() ==> (bytes::be32((#[trigger] list[i]).0, 0) == IEND <==> i
                == list.len() - 1),
    ensures
        scan(d, pos) is Ok,
        kept(d, scan(d, pos)->Ok_0) == row(list.filter(pred)),
        all_tags(d, scan(d, pos)->Ok_0) == lines_of(list),
    decreases list.len(),
{
    let n = d.len() as int;
    let tail = d.subrange(pos, n);
    let (kind, body, sum) = list[0];
    let piece = laid_out(kind, body, sum);
    let end = pos + piece.len();
    let rest = list.skip(1);
    assert(tail =~= piece + (row(rest) + junk));
    assert(d.subrange(pos, end) =~= piece) by {
        assert(tail.take(piece.len() as int) =~= piece);
        assert(d.subrange(pos, end) =~= tail.take(piece.len() as int));
    }
    lemma_chunk_found(d, pos, kind, body, sum);
    let s = chunk_at(d, pos);
    lemma_front_filter(list, pred);
    lemma_chunk_lines(d, s, kind, body);
    let left = seq![list[0]] + rest.filter(pred);
    assert(left.skip(1) =~= rest.filter(pred));
    assert(row(left) == piece + row(rest.filter(pred)));
    if list.len() == 1 {
        assert(rest =~= Seq::empty());
        reveal(Seq::filter);
        assert(rest.filter(pred) =~= Seq::empty());
        let found = seq![s];
        assert(scan(d, pos) == Ok::<_, Seq<char>>(found));
        assert(found.skip(1) =~= Seq::empty());
        assert(kept(d, found.skip(1)) =~= Seq::empty());
        assert(all_tags(d, found.skip(1)) =~= Seq::empty());
        assert(row(rest.filter(pred)) =~= Seq::empty());
        assert(lines_of(rest) =~= Seq::empty());
        assert(kept(d, found) =~= row(list.filter(pred)));
    } else {
        assert(d.subrange(end, n) =~= row(rest) + junk) by {
            assert(d.subrange(end, n) =~= tail.skip(piece.len() as int));
        }
        assert forall|i: int| 0 <= i < rest.len() implies rest[i] == list[i + 1] by {}
        lemma_picture(d, end, rest, junk, pred);
        let found = scan(d, end)->Ok_0;
        let both = seq![s] + found;
        assert(scan(d, pos) == Ok::<_, Seq<char>>(both));
        assert(both.skip(1) =~= found);
    }
}

/// Cleaning takes everything out of a picture but the chunks that make it up and say how it
/// looks: those stay as they are and in their order. What stands behind the closing chunk goes.
pub proof fn cleaning_loses_nothing_of_the_picture(
    list: Seq<(Seq<u8>, Seq<u8>, Seq<u8>)>,
    junk: Seq<u8>,
)
    requires
        makes_a_picture(list),
        (picture(list) + junk).len() <= usize::MAX,
    ensures
        cleaned(picture(list) + junk) == Ok::<_, Seq<char>>(
            picture(list.filter(|c: (Seq<u8>, Seq<u8>, Seq<u8>)| is_of_the_picture(c.0))),
        ),
        tags(picture(list) + junk) == Ok::<_, Seq<char>>(lines_of(list)),
{
    let d = picture(list) + junk;
    assert(PNG_SIGNATURE@ =~= seq![137u8, 80, 78, 71, 13, 10, 26, 10]);
    assert(d.subrange(0, 8) =~= PNG_SIGNATURE@);
    assert(d.subrange(8, d.len() as int) =~= row(list) + junk);
    let pred = |c: (Seq<u8>, Seq<u8>, Seq<u8>)| is_of_the_picture(c.0);
    assert forall|i: int| 0 <= i < list.len() implies pred(#[trigger] list[i]) == survives(
        bytes::be32(list[i].0, 0) as u32,
    ) && (bytes::be32(list[i].0, 0) == IEND <==> i == list.len() - 1) by {
        lemma_survivors(list[i].0);
    }
    lemma_picture(d, 8, list, junk, pred);
}

/// What is no PNG is refused, and so is a picture whose first chunk sticks out of the file.
pub proof fn broken_picture_is_refused(d: Seq<u8>)
    ensures
        d.len() < 8 || d.take(8) != seq![137u8, 80, 78, 71, 13, 10, 26, 10] ==> tags(d) is Err
            && cleaned(d) is Err,
        d.len() >= 16 && 20 + 16777216 * d[8] + 65536 * d[9] + 256 * d[10] + d[11] > d.len()
            ==> tags(d) is Err && cleaned(d) is Err,
{
    assert(PNG_SIGNATURE@ =~= seq![137u8, 80, 78, 71, 13, 10, 26, 10]);
    assert(d.len() >= 8 ==> d.take(8) =~= d.subrange(0, 8));
}

} // verus!
