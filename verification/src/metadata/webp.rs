//! WebP: a RIFF container, chunks aligned to even positions.
use crate::bytes;
use crate::metadata::exif;
use crate::metadata::tag;
use crate::metadata::tag::{Tag, TagText};
use crate::text;
use vstd::prelude::*;
use vstd::slice::slice_subrange;

verus! {

// The chunk types that matter here, each as the big-endian number of its four letters.

/// "RIFF", which begins the container.
pub const RIFF: u32 = 0x5249_4646;

/// "WEBP", the format of what the container holds.
pub const WEBP: u32 = 0x5745_4250;

/// "EXIF": an EXIF block.
pub const EXIF: u32 = 0x4558_4946;

/// "XMP ": an XMP packet.
pub const XMP: u32 = 0x584D_5020;

/// "VP8X": flags of what the container holds.
pub const VP8X: u32 = 0x5650_3858;

/// All bits of the flags in a "VP8X" chunk but those that announce EXIF and XMP.
pub const FLAG_MASK: u8 = 0b1111_0011;

/// A chunk: its type, and where it stands, without the alignment byte.
#[derive(Debug, Clone, Copy)]
pub struct Chunk {
    pub kind: u32,
    pub start: usize,
    pub end: usize,
}

/// A chunk in terms of unbounded positions.
pub struct Span {
    pub kind: u32,
    pub start: int,
    pub end: int,
}

impl View for Chunk {
    type V = Span;

    open spec fn view(&self) -> Span {
        Span { kind: self.kind, start: self.start as int, end: self.end as int }
    }
}

pub open spec fn spans(chunks: Seq<Chunk>) -> Seq<Span> {
    chunks.map_values(|c: Chunk| c@)
}

/// The chunk whose type field stands at `pos`.
pub open spec fn chunk_at(d: Seq<u8>, pos: int) -> Span {
    Span {
        kind: bytes::be32(d, pos) as u32,
        start: pos,
        end: pos + 8 + bytes::le32(d, pos + 4),
    }
}

/// Where the chunk after one that ends at `end` starts, for a body of `len` bytes.
pub open spec fn aligned(end: int, len: int) -> int {
    end + len % 2
}

/// The chunks from `pos` up to where no further one fits.
pub open spec fn scan(d: Seq<u8>, pos: int) -> Result<Seq<Span>, Seq<char>>
    decreases d.len() + 1 - pos,
{
    if pos < 0 || pos + 8 > d.len() {
        Ok(Seq::empty())
    } else if chunk_at(d, pos).end > usize::MAX {
        Err("WebP повреждён: неправдоподобная длина чанка."@)
    } else if chunk_at(d, pos).end > d.len() {
        Err("WebP повреждён: чанк выходит за конец файла."@)
    } else {
        after(
            seq![chunk_at(d, pos)],
            scan(d, aligned(chunk_at(d, pos).end, bytes::le32(d, pos + 4))),
        )
    }
}

/// An outcome of [`scan`] with `first` put in front of its chunks.
pub open spec fn after(
    first: Seq<Span>,
    rest: Result<Seq<Span>, Seq<char>>,
) -> Result<Seq<Span>, Seq<char>> {
    match rest {
        Ok(spans) => Ok(first + spans),
        Err(e) => Err(e),
    }
}

/// The chunks of a WebP file.
pub open spec fn chunks(d: Seq<u8>) -> Result<Seq<Span>, Seq<char>> {
    if d.len() < 12 || bytes::be32(d, 0) != RIFF || bytes::be32(d, 8) != WEBP {
        Err("Это не WebP: файл не начинается с сигнатуры RIFF/WEBP."@)
    } else {
        scan(d, 12)
    }
}

pub open spec fn is_metadata(kind: u32) -> bool {
    kind == EXIF || kind == XMP
}

/// The body of a chunk.
pub open spec fn body(d: Seq<u8>, s: Span) -> Seq<u8> {
    d.subrange(s.start + 8, s.end)
}

/// The tags of one chunk.
pub open spec fn chunk_tags(d: Seq<u8>, s: Span) -> Seq<TagText> {
    if s.kind == EXIF {
        exif::tags(body(d, s))
    } else if s.kind == XMP {
        seq![tag::said("XMP"@, tag::presence(body(d, s).len()))]
    } else {
        Seq::empty()
    }
}

/// The tags of all chunks, in file order.
pub open spec fn all_tags(d: Seq<u8>, spans: Seq<Span>) -> Seq<TagText>
    decreases spans.len(),
{
    if spans.len() == 0 {
        Seq::empty()
    } else {
        chunk_tags(d, spans[0]) + all_tags(d, spans.skip(1))
    }
}

/// The tags of a WebP file.
pub open spec fn tags(d: Seq<u8>) -> Result<Seq<TagText>, Seq<char>> {
    match chunks(d) {
        Ok(spans) => Ok(all_tags(d, spans)),
        Err(e) => Err(e),
    }
}

/// The body of a chunk with the flags of EXIF and XMP put out where it holds flags.
pub open spec fn flagless(kind: u32, body: Seq<u8>) -> Seq<u8> {
    if kind == VP8X && body.len() > 0 {
        body.update(0, body[0] & FLAG_MASK)
    } else {
        body
    }
}

/// A chunk as it is written anew: type, length, body and alignment.
pub open spec fn written(d: Seq<u8>, s: Span) -> Seq<u8> {
    let whole = d.subrange(s.start, s.start + 4) + bytes::le32_bytes(body(d, s).len() as int)
        + flagless(s.kind, body(d, s));
    if body(d, s).len() % 2 == 1 {
        whole.push(0)
    } else {
        whole
    }
}

/// The chunks that hold no metadata, written anew.
pub open spec fn kept(d: Seq<u8>, spans: Seq<Span>) -> Seq<u8>
    decreases spans.len(),
{
    if spans.len() == 0 {
        Seq::empty()
    } else if is_metadata(spans[0].kind) {
        kept(d, spans.skip(1))
    } else {
        written(d, spans[0]) + kept(d, spans.skip(1))
    }
}

/// The twelve bytes in front of `len` bytes of chunks. The size counts from the format
/// field on and is kept modulo 2^32.
#[verifier::opaque]
pub open spec fn header(len: int) -> Seq<u8> {
    seq![0x52u8, 0x49u8, 0x46u8, 0x46u8] + bytes::le32_bytes((len + 4) % 0x1_0000_0000)
        + seq![0x57u8, 0x45u8, 0x42u8, 0x50u8]
}

/// A WebP file without its metadata.
pub open spec fn cleaned(d: Seq<u8>) -> Result<Seq<u8>, Seq<char>> {
    match chunks(d) {
        Ok(spans) => Ok(header(kept(d, spans).len() as int) + kept(d, spans)),
        Err(e) => Err(e),
    }
}

/// Whether every chunk lies inside `len` bytes and has a body of fewer than 2^32 bytes.
pub open spec fn inside(spans: Seq<Span>, len: int) -> bool {
    forall|i: int|
        0 <= i < spans.len() ==> 0 <= (#[trigger] spans[i]).start && spans[i].start + 8
            <= spans[i].end <= len && spans[i].end - spans[i].start - 8 < 0x1_0000_0000
}

pub fn riff_chunks(data: &[u8]) -> (r: Result<Vec<Chunk>, String>)
    ensures
        match r {
            Ok(found) => {
                &&& chunks(data@) == Ok::<_, Seq<char>>(spans(found@))
                &&& inside(spans(found@), data@.len() as int)
            },
            Err(e) => chunks(data@) == Err::<Seq<Span>, _>(e@),
        },
{
    let signed: bool = match (bytes::be_u32(data, 0), bytes::be_u32(data, 8)) {
        (Some(container), Some(format)) => container == RIFF && format == WEBP,
        _ => false,
    };
    if !signed {
        return Err("Это не WebP: файл не начинается с сигнатуры RIFF/WEBP.".to_owned());
    }
    let len = data.len();
    let mut found: Vec<Chunk> = Vec::new();
    let mut pos: usize = 12;
    assert(spans(found@) =~= Seq::empty());
    proof {
        lemma_after_none(scan(data@, 12));
    }
    while bytes::fits(len, pos, 8)
        invariant
            12 <= len == data@.len(),
            12 <= pos <= len,
            chunks(data@) == after(spans(found@), scan(data@, pos as int)),
            inside(spans(found@), len as int),
        decreases len - pos,
    {
        let (kind, size): (u32, u32) = match (
            bytes::be_u32(data, pos),
            bytes::le_u32(data, pos + 4),
        ) {
            (Some(kind), Some(size)) => (kind, size),
            _ => (0, 0),
        };
        let end: usize = match (pos + 8).checked_add(size as usize) {
            None => return Err("WebP повреждён: неправдоподобная длина чанка.".to_owned()),
            Some(end) => end,
        };
        if end > len {
            return Err("WebP повреждён: чанк выходит за конец файла.".to_owned());
        }
        let ghost before = spans(found@);
        let next = Chunk { kind, start: pos, end };
        assert(next@ == chunk_at(data@, pos as int));
        found.push(next);
        proof {
            assert(spans(found@) =~= before + seq![next@]);
            lemma_after_after(
                before,
                seq![next@],
                scan(data@, aligned(end as int, size as int)),
            );
        }
        pos = if size % 2 == 1 && end < len {
            end + 1
        } else {
            end
        };
    }
    assert(spans(found@) + Seq::<Span>::empty() =~= spans(found@));
    Ok(found)
}

proof fn lemma_after_none(rest: Result<Seq<Span>, Seq<char>>)
    ensures
        after(Seq::empty(), rest) == rest,
{
    if let Ok(spans) = rest {
        assert(Seq::<Span>::empty() + spans =~= spans);
    }
}

proof fn lemma_after_after(a: Seq<Span>, b: Seq<Span>, rest: Result<Seq<Span>, Seq<char>>)
    ensures
        after(a, after(b, rest)) == after(a + b, rest),
{
    if let Ok(spans) = rest {
        assert(a + (b + spans) =~= (a + b) + spans);
    }
}

pub fn read_webp(data: &[u8]) -> (r: Result<Vec<Tag>, String>)
    ensures
        tag::same(r, tags(data@)),
{
    let found = match riff_chunks(data) {
        Ok(found) => found,
        Err(e) => return Err(e),
    };
    let ghost all = spans(found@);
    let mut out: Vec<Tag> = Vec::new();
    let mut i: usize = 0;
    assert(tag::texts(out@) =~= Seq::empty());
    assert(all.skip(0) =~= all);
    while i < found.len()
        invariant
            i <= found@.len(),
            all == spans(found@),
            inside(all, data@.len() as int),
            all_tags(data@, all) =~= tag::texts(out@) + all_tags(data@, all.skip(i as int)),
        decreases found@.len() - i,
    {
        let c = found[i];
        proof {
            assert(all[i as int] == c@);
            assert(all.skip(i as int)[0] == c@);
            assert(all.skip(i as int).skip(1) =~= all.skip(i + 1));
        }
        let ghost before = tag::texts(out@);
        let part = slice_subrange(data, c.start + 8, c.end);
        if c.kind == EXIF {
            tag::append_tags(&mut out, exif::read_tiff(part));
        } else if c.kind == XMP {
            tag::push_tag(&mut out, "XMP", tag::presence_text(part.len()));
        }
        assert(tag::texts(out@) =~= before + chunk_tags(data@, c@));
        i += 1;
    }
    assert(all_tags(data@, all.skip(found@.len() as int)) =~= Seq::empty());
    Ok(out)
}

/// Appends a chunk written anew.
fn write_chunk(data: &[u8], c: Chunk, out: &mut Vec<u8>)
    requires
        c.start + 8 <= c.end <= data@.len(),
        c.end - c.start - 8 < 0x1_0000_0000,
    ensures
        final(out)@ == old(out)@ + written(data@, c@),
{
    let size: usize = c.end - c.start - 8;
    bytes::push_range(out, data, c.start, c.start + 4);
    bytes::push_le32(out, size as u32);
    if c.kind == VP8X && size > 0 {
        out.push(data[c.start + 8] & FLAG_MASK);
        bytes::push_range(out, data, c.start + 9, c.end);
    } else {
        bytes::push_range(out, data, c.start + 8, c.end);
    }
    if size % 2 == 1 {
        out.push(0);
    }
    assert(out@ =~= old(out)@ + written(data@, c@));
}

pub fn strip_webp(data: &[u8]) -> (r: Result<Vec<u8>, String>)
    ensures
        bytes::same(r, cleaned(data@)),
{
    let found = match riff_chunks(data) {
        Ok(found) => found,
        Err(e) => return Err(e),
    };
    let ghost all = spans(found@);
    let mut rest: Vec<u8> = Vec::with_capacity(data.len());
    assert(all.skip(0) =~= all);
    let mut i: usize = 0;
    while i < found.len()
        invariant
            i <= found@.len(),
            all == spans(found@),
            inside(all, data@.len() as int),
            kept(data@, all) =~= rest@ + kept(data@, all.skip(i as int)),
        decreases found@.len() - i,
    {
        let c = found[i];
        proof {
            assert(all[i as int] == c@);
            assert(all.skip(i as int)[0] == c@);
            assert(all.skip(i as int).skip(1) =~= all.skip(i + 1));
        }
        if c.kind != EXIF && c.kind != XMP {
            write_chunk(data, c, &mut rest);
        }
        i += 1;
    }
    assert(kept(data@, all.skip(found@.len() as int)) =~= Seq::empty());
    let size: u32 = ((rest.len() as u128 + 4) % 0x1_0000_0000) as u32;
    let mut out: Vec<u8> = vec![0x52, 0x49, 0x46, 0x46];
    bytes::push_le32(&mut out, size);
    out.push(0x57);
    out.push(0x45);
    out.push(0x42);
    out.push(0x50);
    proof {
        reveal(header);
    }
    assert(out@ =~= header(rest@.len() as int));
    out.append(&mut rest);
    Ok(out)
}

/// A chunk written anew at `at` of `x` is found there, and is written the same once more.
proof fn lemma_written_again(d: Seq<u8>, s: Span, x: Seq<u8>, at: int)
    requires
        0 <= s.start,
        s.start + 8 <= s.end <= d.len(),
        s.end - s.start - 8 < 0x1_0000_0000,
        s.kind == bytes::be32(d, s.start),
        0 <= at,
        at + written(d, s).len() <= x.len(),
        x.subrange(at, at + written(d, s).len()) == written(d, s),
    ensures
        chunk_at(x, at) == (Span { kind: s.kind, start: at, end: at + s.end - s.start }),
        bytes::le32(x, at + 4) == s.end - s.start - 8,
        written(x, chunk_at(x, at)) == written(d, s),
        written(d, s).len() == aligned(s.end - s.start, s.end - s.start - 8),
{
    let size = s.end - s.start - 8;
    let piece = written(d, s);
    bytes::lemma_le32_len(size);
    assert(body(d, s).len() == size);
    assert forall|k: int| 0 <= k < piece.len() implies x[at + k] == #[trigger] piece[k] by {
        assert(x.subrange(at, at + piece.len())[k] == piece[k]);
    }
    assert(piece[0] == d[s.start] && piece[1] == d[s.start + 1] && piece[2] == d[s.start + 2]
        && piece[3] == d[s.start + 3]);
    assert(x.subrange(at + 4, at + 8) =~= bytes::le32_bytes(size)) by {
        assert(piece.subrange(4, 8) =~= bytes::le32_bytes(size));
        assert(x.subrange(at + 4, at + 8) =~= piece.subrange(4, 8));
    }
    bytes::le32_is_read_back(size, x, at + 4);
    let s2 = chunk_at(x, at);
    assert(body(x, s2) =~= flagless(s.kind, body(d, s))) by {
        assert(piece.subrange(8, 8 + size) =~= flagless(s.kind, body(d, s)));
        assert(body(x, s2) =~= piece.subrange(8, 8 + size));
    }
    assert(flagless(s.kind, body(x, s2)) =~= body(x, s2)) by {
        if s.kind == VP8X && size > 0 {
            let b = body(d, s)[0];
            assert((b & 0b1111_0011u8) & 0b1111_0011u8 == b & 0b1111_0011u8) by (bit_vector);
        }
    }
    assert(x.subrange(at, at + 4) =~= d.subrange(s.start, s.start + 4)) by {
        assert(piece.subrange(0, 4) =~= d.subrange(s.start, s.start + 4));
        assert(x.subrange(at, at + 4) =~= piece.subrange(0, 4));
    }
}

/// Scanning a cleaned tail: `p` stands for what precedes it in the cleaned file.
proof fn lemma_scan_cleaned(d: Seq<u8>, pos: int, p: Seq<u8>)
    requires
        0 <= pos,
        scan(d, pos) is Ok,
        p.len() + kept(d, scan(d, pos)->Ok_0).len() <= usize::MAX,
    ensures
        ({
            let found = scan(d, pos)->Ok_0;
            let x = p + kept(d, found);
            &&& scan(x, p.len() as int) is Ok
            &&& {
                let again = scan(x, p.len() as int)->Ok_0;
                &&& kept(x, again) == kept(d, found)
                &&& forall|i: int|
                    0 <= i < again.len() ==> !is_metadata((#[trigger] again[i]).kind)
            }
        }),
    decreases d.len() + 1 - pos,
{
    let found = scan(d, pos)->Ok_0;
    let at = p.len() as int;
    let x = p + kept(d, found);
    if pos + 8 <= d.len() {
        let s = chunk_at(d, pos);
        let size = bytes::le32(d, pos + 4);
        let next = aligned(s.end, size);
        let rest = scan(d, next)->Ok_0;
        assert(found =~= seq![s] + rest);
        assert(found.skip(1) =~= rest);
        if is_metadata(s.kind) {
            lemma_scan_cleaned(d, next, p);
        } else {
            let piece = written(d, s);
            assert(x =~= (p + piece) + kept(d, rest));
            assert(x.subrange(at, at + piece.len()) =~= piece);
            lemma_written_again(d, s, x, at);
            lemma_scan_cleaned(d, next, p + piece);
            let s2 = chunk_at(x, at);
            let again = scan(x, at + piece.len())->Ok_0;
            assert(scan(x, at) == Ok::<_, Seq<char>>(seq![s2] + again));
            assert((seq![s2] + again).skip(1) =~= again);
        }
    } else {
        assert(x =~= p);
    }
}

proof fn lemma_no_tags(d: Seq<u8>, spans: Seq<Span>)
    requires
        forall|i: int| 0 <= i < spans.len() ==> !is_metadata((#[trigger] spans[i]).kind),
    ensures
        all_tags(d, spans) == Seq::<TagText>::empty(),
    decreases spans.len(),
{
    if spans.len() > 0 {
        assert(!is_metadata(spans[0].kind));
        lemma_no_tags(d, spans.skip(1));
    }
}

proof fn lemma_header(rest: Seq<u8>)
    ensures
        ({
            let out = header(rest.len() as int) + rest;
            &&& header(rest.len() as int).len() == 12
            &&& bytes::be32(out, 0) == RIFF
            &&& bytes::be32(out, 8) == WEBP
            &&& bytes::le32(out, 4) == (rest.len() + 4) % 0x1_0000_0000
        }),
{
    reveal(header);
    let out = header(rest.len() as int) + rest;
    let size = (rest.len() + 4) as int % 0x1_0000_0000;
    bytes::lemma_le32_len(size);
    assert(out.subrange(4, 8) =~= bytes::le32_bytes(size));
    bytes::le32_is_read_back(size, out, 4);
    assert(out[0] == 0x52 && out[1] == 0x49 && out[2] == 0x46 && out[3] == 0x46);
    assert(out[8] == 0x57 && out[9] == 0x45 && out[10] == 0x42 && out[11] == 0x50);
}

/// A cleaned file shows no metadata, cleaning it again changes nothing, the chunks other
/// than metadata are those of the original, and the size that the container declares is
/// its own wherever 32 bits can hold it.
#[verifier::spinoff_prover]
#[verifier::rlimit(40)]
pub proof fn cleaned_file_is_clean(d: Seq<u8>)
    requires
        cleaned(d) is Ok,
        cleaned(d)->Ok_0.len() <= usize::MAX,
    ensures
        ({
            let out = cleaned(d)->Ok_0;
            &&& tags(out) == Ok::<_, Seq<char>>(Seq::<TagText>::empty())
            &&& cleaned(out) == Ok::<_, Seq<char>>(out)
            &&& kept(out, chunks(out)->Ok_0) == kept(d, chunks(d)->Ok_0)
            &&& out.len() - 8 < 0x1_0000_0000 ==> bytes::le32(out, 4) == out.len() - 8
        }),
{
    let out = cleaned(d)->Ok_0;
    let rest = kept(d, chunks(d)->Ok_0);
    let front = header(rest.len() as int);
    let again = scan(out, 12)->Ok_0;
    assert(front.len() == 12 && chunks(out) == scan(out, 12) && (out.len() - 8 < 0x1_0000_0000
        ==> bytes::le32(out, 4) == out.len() - 8)) by {
        lemma_header(rest);
    }
    assert(scan(out, 12) is Ok && kept(out, again) == rest && forall|i: int|
        0 <= i < again.len() ==> !is_metadata((#[trigger] again[i]).kind)) by {
        lemma_scan_cleaned(d, 12, front);
    }
    assert(cleaned(out) == Ok::<_, Seq<char>>(out));
    lemma_no_tags(out, again);
}

/// What is kept of a tail is longer than the tail by at most an alignment byte at its end, and
/// shorter by a whole chunk where metadata is in it.
proof fn lemma_kept_len(d: Seq<u8>, pos: int)
    requires
        0 <= pos <= d.len() + 1,
        scan(d, pos) is Ok,
    ensures
        ({
            let found = scan(d, pos)->Ok_0;
            &&& kept(d, found).len() <= d.len() + 1 - pos
            &&& kept(d, found).len() >= d.len() - pos ==> forall|i: int|
                0 <= i < found.len() ==> !is_metadata((#[trigger] found[i]).kind)
        }),
    decreases d.len() + 1 - pos,
{
    let found = scan(d, pos)->Ok_0;
    if pos + 8 <= d.len() {
        let s = chunk_at(d, pos);
        let next = aligned(s.end, bytes::le32(d, pos + 4));
        let rest = scan(d, next)->Ok_0;
        lemma_kept_len(d, next);
        bytes::lemma_le32_len(body(d, s).len() as int);
        assert(written(d, s).len() == next - pos);
        assert(found =~= seq![s] + rest);
        assert(found.skip(1) =~= rest);
        assert forall|i: int|
            kept(d, found).len() >= d.len() - pos && 0 <= i < found.len() implies !is_metadata(
            (#[trigger] found[i]).kind,
        ) by {
            if i > 0 {
                assert(found[i] == rest[i - 1]);
            }
        }
    }
}

/// A file that cleaning does not shorten has no metadata to show.
pub proof fn file_left_alone_is_clean(d: Seq<u8>)
    requires
        cleaned(d) is Ok,
        cleaned(d)->Ok_0.len() >= d.len(),
    ensures
        tags(d) == Ok::<_, Seq<char>>(Seq::<TagText>::empty()),
{
    lemma_header(kept(d, chunks(d)->Ok_0));
    lemma_kept_len(d, 12);
    lemma_no_tags(d, chunks(d)->Ok_0);
}

/// A number in four bytes, the lowest first.
pub open spec fn low_first(n: int) -> Seq<u8> {
    seq![
        (n % 256) as u8,
        (n / 256 % 256) as u8,
        (n / 65536 % 256) as u8,
        (n / 16777216 % 256) as u8,
    ]
}

/// A chunk as it is laid out: the four letters of its type, the length of its body, the body,
/// and a zero byte behind a body of odd length.
pub open spec fn laid_out(kind: Seq<u8>, body: Seq<u8>) -> Seq<u8> {
    kind + low_first(body.len() as int) + body + (if body.len() % 2 == 1 {
        seq![0u8]
    } else {
        Seq::empty()
    })
}

/// Chunks one behind the other.
pub open spec fn row(list: Seq<(Seq<u8>, Seq<u8>)>) -> Seq<u8>
    decreases list.len(),
{
    if list.len() == 0 {
        Seq::empty()
    } else {
        laid_out(list[0].0, list[0].1) + row(list.skip(1))
    }
}

/// A picture: "RIFF", a size, "WEBP" and chunks.
pub open spec fn picture(size: Seq<u8>, list: Seq<(Seq<u8>, Seq<u8>)>) -> Seq<u8> {
    seq![82u8, 73, 70, 70] + size + seq![87u8, 69, 66, 80] + row(list)
}

/// Whether chunks make up a picture: every type has four letters, every length fits its bytes.
pub open spec fn makes_a_picture(list: Seq<(Seq<u8>, Seq<u8>)>) -> bool {
    forall|i: int|
        0 <= i < list.len() ==> (#[trigger] list[i]).0.len() == 4 && list[i].1.len() < 4294967296
}

/// Whether a chunk is a block of EXIF or a packet of XMP.
pub open spec fn tells_of_the_maker(kind: Seq<u8>) -> bool {
    kind == seq![69u8, 88, 73, 70] || kind == seq![88u8, 77, 80, 32]
}

/// A chunk that no longer announces EXIF and XMP, bits 3 and 2 of the first byte of "VP8X".
pub open spec fn unannounced(kind: Seq<u8>, body: Seq<u8>) -> Seq<u8> {
    if kind == seq![86u8, 80, 56, 88] && body.len() > 0 {
        body.update(0, body[0] & !8u8 & !4u8)
    } else {
        body
    }
}

/// The chunks without metadata, each announcing none.
pub open spec fn bare(list: Seq<(Seq<u8>, Seq<u8>)>) -> Seq<(Seq<u8>, Seq<u8>)>
    decreases list.len(),
{
    if list.len() == 0 {
        Seq::empty()
    } else if tells_of_the_maker(list[0].0) {
        bare(list.skip(1))
    } else {
        seq![(list[0].0, unannounced(list[0].0, list[0].1))] + bare(list.skip(1))
    }
}

/// What chunks are shown as, in their order: blocks of EXIF by their entries, packets of XMP by
/// their size.
pub open spec fn lines_of(list: Seq<(Seq<u8>, Seq<u8>)>) -> Seq<TagText>
    decreases list.len(),
{
    if list.len() == 0 {
        Seq::empty()
    } else {
        let (kind, body) = list[0];
        (if kind == seq![69u8, 88, 73, 70] {
            exif::tags(body)
        } else if kind == seq![88u8, 77, 80, 32] {
            seq![
                TagText {
                    name: "XMP"@,
                    value: "присутствует, "@ + text::decimal(body.len()) + " Б"@,
                },
            ]
        } else {
            Seq::empty()
        }) + lines_of(list.skip(1))
    }
}

/// Four letters are the same as the number that they make up.
proof fn lemma_letters(kind: Seq<u8>, a: u8, b: u8, c: u8, e: u8)
    requires
        kind.len() == 4,
    ensures
        kind == seq![a, b, c, e] <==> bytes::be32(kind, 0) == a * 16777216 + b * 65536 + c * 256
            + e,
{
    assert(kind =~= seq![kind[0], kind[1], kind[2], kind[3]]);
    let other = seq![a, b, c, e];
    assert(other[0] == a && other[1] == b && other[2] == c && other[3] == e);
}

/// A chunk that stands at `pos` is found there.
proof fn lemma_chunk_found(d: Seq<u8>, pos: int, kind: Seq<u8>, body: Seq<u8>)
    requires
        kind.len() == 4,
        body.len() < 4294967296,
        0 <= pos,
        pos + laid_out(kind, body).len() <= d.len(),
        d.subrange(pos, pos + laid_out(kind, body).len()) == laid_out(kind, body),
    ensures
        laid_out(kind, body).len() == body.len() + 8 + body.len() % 2,
        chunk_at(d, pos) == (Span {
            kind: bytes::be32(kind, 0) as u32,
            start: pos,
            end: pos + 8 + body.len(),
        }),
        bytes::le32(d, pos + 4) == body.len(),
        d.subrange(pos + 8, pos + 8 + body.len()) == body,
        d.subrange(pos, pos + 4) == kind,
{
    let piece = laid_out(kind, body);
    let m = body.len() as int;
    let end = pos + piece.len();
    assert forall|k: int| 0 <= k < piece.len() implies #[trigger] d[pos + k] == piece[k] by {
        assert(d.subrange(pos, end)[k] == piece[k]);
    }
    assert(d[pos + 0] == piece[0] && d[pos + 1] == piece[1] && d[pos + 2] == piece[2] && d[pos + 3]
        == piece[3]);
    assert(d[pos + 4] == piece[4] && d[pos + 5] == piece[5] && d[pos + 6] == piece[6] && d[pos + 7]
        == piece[7]);
    assert(piece[0] == kind[0] && piece[1] == kind[1] && piece[2] == kind[2] && piece[3]
        == kind[3]);
    let size = low_first(m);
    assert(piece[4] == size[0] && piece[5] == size[1] && piece[6] == size[2] && piece[7]
        == size[3]);
    assert(m / 16777216 % 256 * 16777216 + m / 65536 % 256 * 65536 + m / 256 % 256 * 256 + m % 256
        == m);
    assert(bytes::le32(d, pos + 4) == m);
    assert(piece.subrange(8, 8 + m) =~= body);
    assert(d.subrange(pos + 8, pos + 8 + m) =~= piece.subrange(8, 8 + m));
    assert(d.subrange(pos, pos + 4) =~= kind);
}

proof fn lemma_low_first(n: int)
    ensures
        bytes::le32_bytes(n) == low_first(n),
{
    reveal(bytes::le32_bytes);
}

/// A chunk is written anew as it was, but for what it announces.
proof fn lemma_chunk_written(d: Seq<u8>, pos: int, kind: Seq<u8>, body: Seq<u8>)
    requires
        kind.len() == 4,
        body.len() < 4294967296,
        0 <= pos,
        pos + laid_out(kind, body).len() <= d.len(),
        d.subrange(pos, pos + laid_out(kind, body).len()) == laid_out(kind, body),
    ensures
        written(d, chunk_at(d, pos)) == laid_out(kind, unannounced(kind, body)),
{
    lemma_chunk_found(d, pos, kind, body);
    lemma_letters(kind, 86, 80, 56, 88);
    lemma_low_first(body.len() as int);
    let s = chunk_at(d, pos);
    assert(self::body(d, s) == body);
    if kind == seq![86u8, 80, 56, 88] && body.len() > 0 {
        let b = body[0];
        assert(b & 0b1111_0011u8 == b & !8u8 & !4u8) by (bit_vector);
    }
    assert(flagless(s.kind, body) == unannounced(kind, body));
    assert(written(d, s) =~= laid_out(kind, unannounced(kind, body)));
}

/// Reading and cleaning the rest of a picture, from a chunk on.
proof fn lemma_picture(d: Seq<u8>, pos: int, list: Seq<(Seq<u8>, Seq<u8>)>)
    requires
        makes_a_picture(list),
        d.len() <= usize::MAX,
        0 <= pos <= d.len(),
        d.subrange(pos, d.len() as int) == row(list),
    ensures
        scan(d, pos) is Ok,
        kept(d, scan(d, pos)->Ok_0) == row(bare(list)),
        all_tags(d, scan(d, pos)->Ok_0) == lines_of(list),
    decreases list.len(),
{
    let n = d.len() as int;
    let tail = d.subrange(pos, n);
    if list.len() > 0 {
        let (kind, body) = list[0];
        let piece = laid_out(kind, body);
        let end = pos + piece.len();
        let rest = list.skip(1);
        assert(tail =~= piece + row(rest));
        assert(d.subrange(pos, end) =~= piece) by {
            assert(tail.take(piece.len() as int) =~= piece);
            assert(d.subrange(pos, end) =~= tail.take(piece.len() as int));
        }
        lemma_chunk_found(d, pos, kind, body);
        lemma_chunk_written(d, pos, kind, body);
        lemma_letters(kind, 69, 88, 73, 70);
        lemma_letters(kind, 88, 77, 80, 32);
        let s = chunk_at(d, pos);
        assert(self::body(d, s) == body);
        assert(d.subrange(end, n) =~= row(rest)) by {
            assert(d.subrange(end, n) =~= tail.skip(piece.len() as int));
        }
        assert forall|i: int| 0 <= i < rest.len() implies rest[i] == list[i + 1] by {}
        lemma_picture(d, end, rest);
        let found = scan(d, end)->Ok_0;
        let both = seq![s] + found;
        assert(aligned(s.end, bytes::le32(d, pos + 4)) == end);
        assert(scan(d, pos) == Ok::<_, Seq<char>>(both));
        assert(both.skip(1) =~= found);
        let first = seq![(kind, unannounced(kind, body))];
        assert((first + bare(rest)).skip(1) =~= bare(rest));
    } else {
        assert(tail.len() == n - pos);
        assert(scan(d, pos) == Ok::<_, Seq<char>>(Seq::<Span>::empty()));
    }
}

/// Cleaning takes EXIF and XMP out of a picture and nothing else: all other chunks stay in their
/// order and as they are, but that none announces EXIF and XMP any more, and the size is that of
/// what is left.
pub proof fn cleaning_loses_nothing_but_metadata(size: Seq<u8>, list: Seq<(Seq<u8>, Seq<u8>)>)
    requires
        size.len() == 4,
        makes_a_picture(list),
        picture(size, list).len() <= usize::MAX,
        row(bare(list)).len() + 4 < 4294967296,
    ensures
        cleaned(picture(size, list)) == Ok::<_, Seq<char>>(
            picture(low_first(row(bare(list)).len() as int + 4), bare(list)),
        ),
        tags(picture(size, list)) == Ok::<_, Seq<char>>(lines_of(list)),
{
    let d = picture(size, list);
    assert(d[0] == 82 && d[1] == 73 && d[2] == 70 && d[3] == 70);
    assert(d[8] == 87 && d[9] == 69 && d[10] == 66 && d[11] == 80);
    assert(d.subrange(12, d.len() as int) =~= row(list));
    lemma_picture(d, 12, list);
    let len = row(bare(list)).len() as int;
    reveal(header);
    lemma_low_first((len + 4) % 0x1_0000_0000);
    assert(header(len) + row(bare(list)) =~= picture(low_first(len + 4), bare(list)));
}

/// What is no WebP is refused, and so is a picture whose first chunk sticks out of the file.
pub proof fn broken_picture_is_refused(d: Seq<u8>)
    ensures
        d.len() < 12 || d.take(4) != seq![82u8, 73, 70, 70] || d.subrange(8, 12) != seq![
            87u8,
            69,
            66,
            80,
        ] ==> tags(d) is Err && cleaned(d) is Err,
        d.len() >= 20 && 20 + d[16] + 256 * d[17] + 65536 * d[18] + 16777216 * d[19] > d.len()
            ==> tags(d) is Err && cleaned(d) is Err,
{
    if d.len() >= 12 {
        let a = d.take(4);
        let b = d.subrange(8, 12);
        lemma_letters(a, 82, 73, 70, 70);
        lemma_letters(b, 87, 69, 66, 80);
        assert(bytes::be32(a, 0) == bytes::be32(d, 0));
        assert(bytes::be32(b, 0) == bytes::be32(d, 8));
    }
}

} // verus!
