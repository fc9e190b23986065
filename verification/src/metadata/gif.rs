//! GIF: a header with a colour table, then blocks made of chains of sub-blocks.
use crate::bytes;
use crate::metadata::tag;
use crate::metadata::tag::{Tag, TagText};
use crate::text;
use vstd::arithmetic::power2::*;
use vstd::prelude::*;
use vstd::slice::slice_subrange;

verus! {

/// "GIF87a".
pub const GIF87: [u8; 6] = [0x47, 0x49, 0x46, 0x38, 0x37, 0x61];

/// "GIF89a".
pub const GIF89: [u8; 6] = [0x47, 0x49, 0x46, 0x38, 0x39, 0x61];

/// A block: the label of an extension, or none for a frame, and where it stands.
#[derive(Debug, Clone, Copy)]
pub struct Block {
    pub label: Option<u8>,
    pub start: usize,
    pub end: usize,
}

/// A block in terms of unbounded positions.
pub struct Span {
    pub label: Option<u8>,
    pub start: int,
    pub end: int,
}

impl View for Block {
    type V = Span;

    open spec fn view(&self) -> Span {
        Span { label: self.label, start: self.start as int, end: self.end as int }
    }
}

pub open spec fn spans(blocks: Seq<Block>) -> Seq<Span> {
    blocks.map_values(|b: Block| b@)
}

/// The size of the colour table that a byte of flags announces.
pub open spec fn table_len(flags: u8) -> int {
    if flags < 0x80 {
        0
    } else {
        3 * pow2((flags % 8 + 1) as nat) as int
    }
}

/// Where the chain of sub-blocks ends that starts at `p`: behind the empty sub-block, or
/// wherever the file ends before it.
pub open spec fn chain_end(d: Seq<u8>, p: int) -> int
    decreases d.len() - p,
{
    if p < 0 || p >= d.len() {
        p
    } else if d[p] == 0 {
        p + 1
    } else if p + 1 + d[p] > d.len() {
        p + 1 + d[p]
    } else {
        chain_end(d, p + 1 + d[p])
    }
}

/// Where the header with the colour table ends.
pub open spec fn header_len(d: Seq<u8>) -> int {
    if d.len() > 10 {
        13 + table_len(d[10])
    } else {
        13
    }
}

/// Where the chain of sub-blocks starts in the block at `pos`: behind the label of an
/// extension; behind the descriptor, the colour table and the code size of a frame.
pub open spec fn chain_start(d: Seq<u8>, pos: int) -> int {
    if d[pos] == 0x21 {
        pos + 2
    } else {
        pos + 11 + table_len(d[pos + 9])
    }
}

/// The block at `pos`.
pub open spec fn block_at(d: Seq<u8>, pos: int) -> Span {
    Span {
        label: (if d[pos] == 0x21 {
            Some(d[pos + 1])
        } else {
            None
        }),
        start: pos,
        end: chain_end(d, chain_start(d, pos)),
    }
}

/// The blocks from `pos` up to the byte that closes the file, or to its end.
pub open spec fn scan(d: Seq<u8>, pos: int) -> Result<Seq<Span>, Seq<char>>
    decreases d.len() - pos,
{
    if pos < 0 || pos >= d.len() || d[pos] == 0x3B {
        Ok(Seq::empty())
    } else if d[pos] == 0x21 && pos + 1 >= d.len() {
        Err("GIF повреждён: обрыв на расширении."@)
    } else if d[pos] == 0x2C && pos + 9 >= d.len() {
        Err("GIF повреждён: обрыв на кадре."@)
    } else if d[pos] == 0x21 && block_at(d, pos).end > d.len() {
        Err("GIF повреждён: расширение выходит за конец файла."@)
    } else if d[pos] == 0x2C && block_at(d, pos).end > d.len() {
        Err("GIF повреждён: кадр выходит за конец файла."@)
    } else if d[pos] == 0x21 || d[pos] == 0x2C {
        proof {
            lemma_chain_end(d, chain_start(d, pos));
        }
        after(seq![block_at(d, pos)], scan(d, block_at(d, pos).end))
    } else {
        Err("GIF повреждён: неизвестный блок."@)
    }
}

/// An outcome of [`scan`] with `first` put in front of its blocks.
pub open spec fn after(
    first: Seq<Span>,
    rest: Result<Seq<Span>, Seq<char>>,
) -> Result<Seq<Span>, Seq<char>> {
    match rest {
        Ok(spans) => Ok(first + spans),
        Err(e) => Err(e),
    }
}

/// The blocks of a GIF file.
pub open spec fn blocks(d: Seq<u8>) -> Result<Seq<Span>, Seq<char>> {
    if d.len() < 13 || !(bytes::has_at(d, 0, GIF87@) || bytes::has_at(d, 0, GIF89@)) {
        Err("Это не GIF: файл не начинается с сигнатуры GIF."@)
    } else {
        scan(d, header_len(d))
    }
}

/// Whether a block holds metadata: a comment, an application extension or a plain text.
/// The graphic control extension holds the delays of an animation and is none.
pub open spec fn is_metadata(label: Option<u8>) -> bool {
    label == Some(0xFEu8) || label == Some(0xFFu8) || label == Some(0x01u8)
}

/// The data of a chain of sub-blocks from `p` on, without the length bytes.
pub open spec fn unblocked(b: Seq<u8>, p: int) -> Seq<u8>
    decreases b.len() - p,
{
    if p < 0 || p >= b.len() || b[p] == 0 {
        Seq::empty()
    } else if p + 1 + b[p] > b.len() {
        b.subrange(p + 1, b.len() as int)
    } else {
        b.subrange(p + 1, p + 1 + b[p]) + unblocked(b, p + 1 + b[p])
    }
}

/// The tags of one block.
pub open spec fn block_tags(d: Seq<u8>, s: Span) -> Seq<TagText> {
    let body = d.subrange(s.start + 2, s.end);
    if s.label == Some(0xFEu8) {
        seq![tag::said("Комментарий"@, text::value_text(unblocked(body, 0)))]
    } else if s.label == Some(0xFFu8) {
        let id = if body.len() >= 12 {
            body.subrange(1, 12)
        } else {
            Seq::empty()
        };
        seq![tag::said("Расширение приложения"@, text::value_text(id))]
    } else if s.label == Some(0x01u8) {
        seq![tag::said("Текстовый блок"@, "присутствует"@)]
    } else {
        Seq::empty()
    }
}

/// The tags of all blocks, in file order.
pub open spec fn all_tags(d: Seq<u8>, spans: Seq<Span>) -> Seq<TagText>
    decreases spans.len(),
{
    if spans.len() == 0 {
        Seq::empty()
    } else {
        block_tags(d, spans[0]) + all_tags(d, spans.skip(1))
    }
}

/// The tags of a GIF file.
pub open spec fn tags(d: Seq<u8>) -> Result<Seq<TagText>, Seq<char>> {
    match blocks(d) {
        Ok(spans) => Ok(all_tags(d, spans)),
        Err(e) => Err(e),
    }
}

/// The bytes of the blocks that hold no metadata.
pub open spec fn kept(d: Seq<u8>, spans: Seq<Span>) -> Seq<u8>
    decreases spans.len(),
{
    if spans.len() == 0 {
        Seq::empty()
    } else if is_metadata(spans[0].label) {
        kept(d, spans.skip(1))
    } else {
        d.subrange(spans[0].start, spans[0].end) + kept(d, spans.skip(1))
    }
}

/// A GIF file without its metadata: the header, the blocks kept and the closing byte.
pub open spec fn cleaned(d: Seq<u8>) -> Result<Seq<u8>, Seq<char>> {
    if header_len(d) > d.len() {
        Err("GIF повреждён: обрыв на таблице цветов."@)
    } else {
        match blocks(d) {
            Ok(spans) => Ok((d.take(header_len(d)) + kept(d, spans)).push(0x3B)),
            Err(e) => Err(e),
        }
    }
}

/// Whether every block lies inside `len` bytes.
pub open spec fn inside(spans: Seq<Span>, len: int) -> bool {
    forall|i: int|
        0 <= i < spans.len() ==> 0 <= (#[trigger] spans[i]).start && spans[i].start + 2
            <= spans[i].end <= len
}

pub proof fn lemma_chain_end(d: Seq<u8>, p: int)
    ensures
        chain_end(d, p) >= p,
    decreases d.len() - p,
{
    if 0 <= p < d.len() && d[p] != 0 && p + 1 + d[p] <= d.len() {
        lemma_chain_end(d, p + 1 + d[p]);
    }
}

fn color_table_len(flags: u8) -> (r: usize)
    ensures
        r == table_len(flags),
        r <= 768,
{
    proof {
        lemma2_to64();
    }
    if flags < 0x80 {
        return 0;
    }
    match flags % 8 {
        0 => 6,
        1 => 12,
        2 => 24,
        3 => 48,
        4 => 96,
        5 => 192,
        6 => 384,
        _ => 768,
    }
}

/// The end of the chain of sub-blocks that starts at `from`, where it lies in the file.
fn skip_chain(data: &[u8], from: usize) -> (r: Option<usize>)
    ensures
        r matches Some(end) ==> end == chain_end(data@, from as int),
        r is Some <==> chain_end(data@, from as int) <= data@.len(),
{
    let len = data.len();
    let mut p: usize = from;
    while p < len
        invariant
            len == data@.len(),
            p <= len || p == from,
            chain_end(data@, from as int) == chain_end(data@, p as int),
        decreases len - p,
    {
        let size: usize = data[p] as usize;
        if size == 0 {
            return Some(p + 1);
        }
        if size > len - p - 1 {
            return None;
        }
        p = p + 1 + size;
    }
    if p > len {
        None
    } else {
        Some(p)
    }
}

pub fn gif_blocks(data: &[u8]) -> (r: Result<Vec<Block>, String>)
    ensures
        match r {
            Ok(found) => {
                &&& blocks(data@) == Ok::<_, Seq<char>>(spans(found@))
                &&& inside(spans(found@), data@.len() as int)
            },
            Err(e) => blocks(data@) == Err::<Seq<Span>, _>(e@),
        },
{
    let len = data.len();
    if len < 13 || !(bytes::matches_at(data, 0, GIF87.as_slice()) || bytes::matches_at(
        data,
        0,
        GIF89.as_slice(),
    )) {
        return Err("Это не GIF: файл не начинается с сигнатуры GIF.".to_owned());
    }
    let mut pos: usize = 13 + color_table_len(data[10]);
    let mut found: Vec<Block> = Vec::new();
    assert(spans(found@) =~= Seq::empty());
    proof {
        lemma_after_none(scan(data@, pos as int));
    }
    while pos < len && data[pos] != 0x3B
        invariant
            13 <= len == data@.len(),
            blocks(data@) == after(spans(found@), scan(data@, pos as int)),
            inside(spans(found@), len as int),
        decreases len - pos,
    {
        let ghost before = spans(found@);
        let first = data[pos];
        let next: Block = if first == 0x21 {
            if pos >= len - 1 {
                return Err("GIF повреждён: обрыв на расширении.".to_owned());
            }
            match skip_chain(data, pos + 2) {
                Some(end) => Block { label: Some(data[pos + 1]), start: pos, end },
                None => return Err(
                    "GIF повреждён: расширение выходит за конец файла.".to_owned(),
                ),
            }
        } else if first == 0x2C {
            if !bytes::fits(len, pos, 10) {
                return Err("GIF повреждён: обрыв на кадре.".to_owned());
            }
            let table: usize = color_table_len(data[pos + 9]);
            if !bytes::fits(len, pos, 11 + table) {
                proof {
                    lemma_chain_end(data@, chain_start(data@, pos as int));
                }
                return Err("GIF повреждён: кадр выходит за конец файла.".to_owned());
            }
            match skip_chain(data, pos + 11 + table) {
                Some(end) => Block { label: None, start: pos, end },
                None => return Err("GIF повреждён: кадр выходит за конец файла.".to_owned()),
            }
        } else {
            return Err("GIF повреждён: неизвестный блок.".to_owned());
        };
        proof {
            lemma_chain_end(data@, chain_start(data@, pos as int));
            assert(next@ == block_at(data@, pos as int));
            lemma_after_after(before, seq![next@], scan(data@, next@.end));
        }
        found.push(next);
        assert(spans(found@) =~= before + seq![next@]);
        pos = next.end;
    }
    assert(spans(found@) + Seq::<Span>::empty() =~= spans(found@));
    Ok(found)
}

proof fn lemma_after_none(rest: Result<Seq<Span>, Seq<char>>)
    ensures
        after(Seq::empty(), rest) == rest,
{
    if let Ok(spans) = rest {
        assert(Seq::<Span>::empty() + spans =~= spans);
    }
}

proof fn lemma_after_after(a: Seq<Span>, b: Seq<Span>, rest: Result<Seq<Span>, Seq<char>>)
    ensures
        after(a, after(b, rest)) == after(a + b, rest),
{
    if let Ok(spans) = rest {
        assert(a + (b + spans) =~= (a + b) + spans);
    }
}

/// Joins the data of a chain of sub-blocks.
pub fn unblock(body: &[u8]) -> (r: Vec<u8>)
    ensures
        r@ == unblocked(body@, 0),
{
    let len = body.len();
    let mut out: Vec<u8> = Vec::new();
    let mut p: usize = 0;
    while p < len && body[p] != 0
        invariant
            p <= len == body@.len(),
            unblocked(body@, 0) =~= out@ + unblocked(body@, p as int),
        decreases len - p,
    {
        let size: usize = body[p] as usize;
        let end: usize = if size > len - p - 1 {
            len
        } else {
            p + 1 + size
        };
        bytes::push_range(&mut out, body, p + 1, end);
        p = end;
    }
    out
}

pub fn read_gif(data: &[u8]) -> (r: Result<Vec<Tag>, String>)
    ensures
        tag::same(r, tags(data@)),
{
    let found = match gif_blocks(data) {
        Ok(found) => found,
        Err(e) => return Err(e),
    };
    let ghost all = spans(found@);
    let mut out: Vec<Tag> = Vec::new();
    let mut i: usize = 0;
    assert(tag::texts(out@) =~= Seq::empty());
    assert(all.skip(0) =~= all);
    while i < found.len()
        invariant
            i <= found@.len(),
            all == spans(found@),
            inside(all, data@.len() as int),
            all_tags(data@, all) =~= tag::texts(out@) + all_tags(data@, all.skip(i as int)),
        decreases found@.len() - i,
    {
        let b = found[i];
        proof {
            assert(all[i as int] == b@);
            assert(all.skip(i as int)[0] == b@);
            assert(all.skip(i as int).skip(1) =~= all.skip(i + 1));
        }
        let ghost before = tag::texts(out@);
        let body = slice_subrange(data, b.start + 2, b.end);
        match b.label {
            Some(0xFE) => {
                let joined = unblock(body);
                tag::push_tag(&mut out, "Комментарий", text::text_value(joined.as_slice()));
            },
            Some(0xFF) => {
                let id = if body.len() >= 12 {
                    slice_subrange(body, 1, 12)
                } else {
                    slice_subrange(body, 0, 0)
                };
                assert(body@.len() < 12 ==> id@ =~= Seq::empty());
                tag::push_tag(&mut out, "Расширение приложения", text::text_value(id));
            },
            Some(0x01) => {
                tag::push_tag(&mut out, "Текстовый блок", "присутствует".to_owned());
            },
            _ => {},
        }
        assert(tag::texts(out@) =~= before + block_tags(data@, b@));
        i += 1;
    }
    assert(all_tags(data@, all.skip(found@.len() as int)) =~= Seq::empty());
    Ok(out)
}

pub fn gif_is_metadata(label: Option<u8>) -> (r: bool)
    ensures
        r == is_metadata(label),
{
    matches!(label, Some(0xFE) | Some(0xFF) | Some(0x01))
}

pub fn strip_gif(data: &[u8]) -> (r: Result<Vec<u8>, String>)
    ensures
        bytes::same(r, cleaned(data@)),
{
    let header: usize = if data.len() > 10 {
        13 + color_table_len(data[10])
    } else {
        13
    };
    if header > data.len() {
        return Err("GIF повреждён: обрыв на таблице цветов.".to_owned());
    }
    let found = match gif_blocks(data) {
        Ok(found) => found,
        Err(e) => return Err(e),
    };
    let ghost all = spans(found@);
    let mut out: Vec<u8> = Vec::with_capacity(data.len());
    bytes::push_range(&mut out, data, 0, header);
    let ghost top = data@.take(header as int);
    assert(out@ =~= top);
    assert(all.skip(0) =~= all);
    let mut i: usize = 0;
    while i < found.len()
        invariant
            i <= found@.len(),
            all == spans(found@),
            inside(all, data@.len() as int),
            top + kept(data@, all) =~= out@ + kept(data@, all.skip(i as int)),
        decreases found@.len() - i,
    {
        let b = found[i];
        proof {
            assert(all[i as int] == b@);
            assert(all.skip(i as int)[0] == b@);
            assert(all.skip(i as int).skip(1) =~= all.skip(i + 1));
        }
        if !gif_is_metadata(b.label) {
            bytes::push_range(&mut out, data, b.start, b.end);
        }
        i += 1;
    }
    assert(kept(data@, all.skip(found@.len() as int)) =~= Seq::empty());
    assert(out@ =~= top + kept(data@, all));
    out.push(0x3B);
    Ok(out)
}

/// Whether the chain of sub-blocks that starts at `p` is closed by an empty sub-block.
pub open spec fn chain_closed(d: Seq<u8>, p: int) -> bool
    decreases d.len() - p,
{
    0 <= p < d.len() && (d[p] == 0 || (p + 1 + d[p] < d.len() && chain_closed(d, p + 1 + d[p])))
}

/// Whether every block that is kept is closed by an empty sub-block. Only the last block of
/// a file without a closing byte can lack it.
pub open spec fn kept_are_closed(d: Seq<u8>, spans: Seq<Span>) -> bool {
    forall|i: int|
        0 <= i < spans.len() && !is_metadata((#[trigger] spans[i]).label) ==> chain_closed(
            d,
            chain_start(d, spans[i].start),
        )
}

/// A closed chain is found again wherever its bytes are copied to.
proof fn lemma_chain_moved(d: Seq<u8>, p: int, x: Seq<u8>, q: int)
    requires
        chain_closed(d, p),
        0 <= q,
        chain_end(d, p) <= d.len(),
        q + chain_end(d, p) - p <= x.len(),
        forall|k: int| 0 <= k < chain_end(d, p) - p ==> #[trigger] x[q + k] == d[p + k],
    ensures
        chain_end(x, q) == q + chain_end(d, p) - p,
        chain_closed(x, q),
        chain_end(d, p) > p,
    decreases d.len() - p,
{
    assert(x[q + 0] == d[p + 0]) by {
        lemma_chain_passes(d, p);
    }
    if d[p] != 0 {
        let step = 1 + d[p];
        lemma_chain_passes(d, p);
        lemma_chain_end(d, p + step);
        assert forall|k: int| 0 <= k < chain_end(d, p + step) - (p + step) implies #[trigger] x[(q
            + step) + k] == d[(p + step) + k] by {
            assert(x[q + (step + k)] == d[p + (step + k)]);
        }
        lemma_chain_moved(d, p + step, x, q + step);
    }
}

/// A closed chain ends behind its start, and each of its sub-blocks lies before that end.
proof fn lemma_chain_passes(d: Seq<u8>, p: int)
    requires
        chain_closed(d, p),
    ensures
        chain_end(d, p) > p,
        d[p] != 0 ==> p + 1 + d[p] < d.len() && chain_end(d, p) == chain_end(d, p + 1 + d[p]),
        chain_end(d, p) <= d.len(),
    decreases d.len() - p,
{
    if d[p] != 0 {
        lemma_chain_passes(d, p + 1 + d[p]);
    }
}

/// A kept block is found again where its bytes are copied to.
proof fn lemma_block_moved(d: Seq<u8>, pos: int, x: Seq<u8>, at: int)
    requires
        0 <= pos < d.len(),
        d[pos] == 0x21 || d[pos] == 0x2C,
        d[pos] == 0x21 ==> pos + 1 < d.len(),
        d[pos] == 0x2C ==> pos + 9 < d.len(),
        chain_closed(d, chain_start(d, pos)),
        0 <= at,
        at + block_at(d, pos).end - pos <= x.len(),
        x.subrange(at, at + block_at(d, pos).end - pos) == d.subrange(pos, block_at(d, pos).end),
    ensures
        x[at] == d[pos],
        block_at(x, at).label == block_at(d, pos).label,
        block_at(x, at).end == at + block_at(d, pos).end - pos,
        chain_closed(x, chain_start(x, at)),
        d[pos] == 0x2C ==> at + 9 < x.len(),
        at + 2 <= x.len(),
{
    let end = block_at(d, pos).end;
    let cs = chain_start(d, pos);
    lemma_chain_passes(d, cs);
    let piece = d.subrange(pos, end);
    lemma2_to64();
    assert(0 <= table_len(d[pos + 9])) by {
        lemma_pow2_pos((d[pos + 9] % 8 + 1) as nat);
    }
    assert forall|k: int| 0 <= k < end - pos implies #[trigger] x[at + k] == d[pos + k] by {
        assert(x.subrange(at, at + end - pos)[k] == piece[k]);
    }
    assert(x[at + 0] == d[pos + 0]);
    assert(x[at + 1] == d[pos + 1]);
    assert(d[pos] == 0x2C ==> x[at + 9] == d[pos + 9]);
    assert(chain_start(x, at) == at + cs - pos);
    assert forall|k: int| 0 <= k < end - cs implies #[trigger] x[(at + cs - pos) + k] == d[cs
        + k] by {
        assert(x[at + (cs - pos + k)] == d[pos + (cs - pos + k)]);
    }
    lemma_chain_moved(d, cs, x, at + cs - pos);
}

/// Scanning a cleaned tail: `p` stands for what precedes it in the cleaned file.
proof fn lemma_scan_cleaned(d: Seq<u8>, pos: int, p: Seq<u8>)
    requires
        0 <= pos,
        scan(d, pos) is Ok,
        kept_are_closed(d, scan(d, pos)->Ok_0),
    ensures
        ({
            let found = scan(d, pos)->Ok_0;
            let x = (p + kept(d, found)).push(0x3B);
            &&& scan(x, p.len() as int) is Ok
            &&& {
                let again = scan(x, p.len() as int)->Ok_0;
                &&& kept(x, again) == kept(d, found)
                &&& kept_are_closed(x, again)
                &&& forall|i: int|
                    0 <= i < again.len() ==> !is_metadata((#[trigger] again[i]).label)
            }
        }),
    decreases d.len() - pos,
{
    let found = scan(d, pos)->Ok_0;
    let at = p.len() as int;
    let x = (p + kept(d, found)).push(0x3B);
    if pos < d.len() && d[pos] != 0x3B {
        let s = block_at(d, pos);
        lemma_chain_end(d, chain_start(d, pos));
        let rest = scan(d, s.end)->Ok_0;
        assert(found =~= seq![s] + rest);
        assert(found.skip(1) =~= rest);
        assert forall|i: int| 0 <= i < rest.len() && !is_metadata(
            (#[trigger] rest[i]).label,
        ) implies chain_closed(d, chain_start(d, rest[i].start)) by {
            assert(found[i + 1] == rest[i]);
        }
        if is_metadata(s.label) {
            lemma_scan_cleaned(d, s.end, p);
        } else {
            assert(found[0] == s);
            lemma_chain_passes(d, chain_start(d, pos));
            let piece = d.subrange(pos, s.end);
            assert(x =~= ((p + piece) + kept(d, rest)).push(0x3B));
            assert(x.subrange(at, at + piece.len()) =~= piece);
            lemma_block_moved(d, pos, x, at);
            lemma_scan_cleaned(d, s.end, p + piece);
            let s2 = block_at(x, at);
            let again = scan(x, at + piece.len())->Ok_0;
            assert(scan(x, at) == Ok::<_, Seq<char>>(seq![s2] + again));
            assert((seq![s2] + again).skip(1) =~= again);
            assert(kept(x, seq![s2] + again) =~= piece + kept(x, again));
        }
    } else {
        assert(x =~= p.push(0x3B));
    }
}

proof fn lemma_no_tags(d: Seq<u8>, spans: Seq<Span>)
    requires
        forall|i: int| 0 <= i < spans.len() ==> !is_metadata((#[trigger] spans[i]).label),
    ensures
        all_tags(d, spans) == Seq::<TagText>::empty(),
    decreases spans.len(),
{
    if spans.len() > 0 {
        assert(!is_metadata(spans[0].label));
        lemma_no_tags(d, spans.skip(1));
    }
}

/// A cleaned file shows no metadata, cleaning it again changes nothing, and its header, its
/// frames and the extensions that control them are those of the original, byte for byte.
///
/// The law does not speak of a file that breaks off right behind a block whose closing
/// sub-block is missing: the closing byte of the file would be taken for a sub-block.
pub proof fn cleaned_file_is_clean(d: Seq<u8>)
    requires
        cleaned(d) is Ok,
        kept_are_closed(d, blocks(d)->Ok_0),
    ensures
        ({
            let out = cleaned(d)->Ok_0;
            &&& tags(out) == Ok::<_, Seq<char>>(Seq::<TagText>::empty())
            &&& cleaned(out) == Ok::<_, Seq<char>>(out)
            &&& out.take(header_len(d)) == d.take(header_len(d))
            &&& kept(out, blocks(out)->Ok_0) == kept(d, blocks(d)->Ok_0)
        }),
{
    let out = cleaned(d)->Ok_0;
    let n = header_len(d);
    let top = d.take(n);
    assert(n >= 13) by {
        lemma_pow2_pos((d[10] % 8 + 1) as nat);
    }
    lemma_scan_cleaned(d, n, top);
    assert(out.take(n) =~= top);
    assert(out[10] == d[10]) by {
        assert(top[10] == d[10]);
    }
    assert(out.subrange(0, 6) =~= d.subrange(0, 6));
    assert(blocks(out) == scan(out, n));
    lemma_no_tags(out, scan(out, n)->Ok_0);
}

/// What is kept of a tail is no longer than the tail, and shorter by a whole block where
/// metadata is in it.
proof fn lemma_kept_len(d: Seq<u8>, pos: int)
    requires
        0 <= pos <= d.len(),
        scan(d, pos) is Ok,
    ensures
        ({
            let found = scan(d, pos)->Ok_0;
            &&& kept(d, found).len() <= d.len() - pos
            &&& kept(d, found).len() + 1 >= d.len() - pos ==> forall|i: int|
                0 <= i < found.len() ==> !is_metadata((#[trigger] found[i]).label)
        }),
    decreases d.len() - pos,
{
    let found = scan(d, pos)->Ok_0;
    if pos < d.len() && d[pos] != 0x3B {
        let s = block_at(d, pos);
        lemma_chain_end(d, chain_start(d, pos));
        assert(chain_start(d, pos) >= pos + 2) by {
            lemma_pow2_pos((d[pos + 9] % 8 + 1) as nat);
        }
        let rest = scan(d, s.end)->Ok_0;
        lemma_kept_len(d, s.end);
        assert(found =~= seq![s] + rest);
        assert(found.skip(1) =~= rest);
        assert forall|i: int|
            kept(d, found).len() + 1 >= d.len() - pos && 0 <= i < found.len() implies !is_metadata(
            (#[trigger] found[i]).label,
        ) by {
            if i > 0 {
                assert(found[i] == rest[i - 1]);
            }
        }
    }
}

/// A file that cleaning does not shorten has no metadata to show.
pub proof fn file_left_alone_is_clean(d: Seq<u8>)
    requires
        cleaned(d) is Ok,
        cleaned(d)->Ok_0.len() >= d.len(),
    ensures
        tags(d) == Ok::<_, Seq<char>>(Seq::<TagText>::empty()),
{
    assert(header_len(d) >= 13) by {
        lemma_pow2_pos((d[10] % 8 + 1) as nat);
    }
    lemma_kept_len(d, header_len(d));
    lemma_no_tags(d, blocks(d)->Ok_0);
}

/// Data in sub-blocks: each behind a byte for its length, and an empty one at the end.
pub open spec fn chain(parts: Seq<Seq<u8>>) -> Seq<u8>
    decreases parts.len(),
{
    if parts.len() == 0 {
        seq![0u8]
    } else {
        seq![parts[0].len() as u8] + parts[0] + chain(parts.skip(1))
    }
}

/// The data without the lengths.
pub open spec fn data_of(parts: Seq<Seq<u8>>) -> Seq<u8>
    decreases parts.len(),
{
    if parts.len() == 0 {
        Seq::empty()
    } else {
        parts[0] + data_of(parts.skip(1))
    }
}

/// The size of a table of colours by the byte that announces it: three bytes a colour, and as
/// many colours as its lowest three bits say, where its highest bit is set.
pub open spec fn colours(announcing: u8) -> int {
    if announcing >= 128 {
        3 * pow2((announcing % 8 + 1) as nat) as int
    } else {
        0
    }
}

/// A block of an animation: what it begins with, and its data. An extension begins with the
/// bytes 21 and a label, a frame with its descriptor, its colours and the size of its codes.
pub struct Scene {
    pub opening: Seq<u8>,
    pub parts: Seq<Seq<u8>>,
}

pub open spec fn is_scene(s: Scene) -> bool {
    &&& forall|i: int| 0 <= i < s.parts.len() ==> 0 < (#[trigger] s.parts[i]).len() < 256
    &&& {
        ||| s.opening.len() == 2 && s.opening[0] == 33
        ||| s.opening.len() >= 11 && s.opening[0] == 44 && s.opening.len() == 11 + colours(
            s.opening[9],
        )
    }
}

/// Blocks one behind the other.
pub open spec fn row(list: Seq<Scene>) -> Seq<u8>
    decreases list.len(),
{
    if list.len() == 0 {
        Seq::empty()
    } else {
        list[0].opening + chain(list[0].parts) + row(list.skip(1))
    }
}

/// Whether bytes begin an animation: "GIF87a" or "GIF89a", the size of the screen and what
/// belongs to it, and the colours.
pub open spec fn is_opening(top: Seq<u8>) -> bool {
    &&& top.len() >= 13
    &&& top.len() == 13 + colours(top[10])
    &&& top[0] == 71 && top[1] == 73 && top[2] == 70 && top[3] == 56 && (top[4] == 55 || top[4]
        == 57) && top[5] == 97
}

/// What blocks are shown as, in their order: comments with their data, extensions by the eleven
/// bytes that name the program, plain texts by their being there.
pub open spec fn lines_of(list: Seq<Scene>) -> Seq<TagText>
    decreases list.len(),
{
    if list.len() == 0 {
        Seq::empty()
    } else {
        let s = list[0];
        (if s.opening[0] == 33 && s.opening[1] == 254 {
            seq![TagText { name: "Комментарий"@, value: text::value_text(data_of(s.parts)) }]
        } else if s.opening[0] == 33 && s.opening[1] == 255 {
            seq![TagText { name: "Расширение приложения"@, value: text::value_text(s.parts[0]) }]
        } else if s.opening[0] == 33 && s.opening[1] == 1 {
            seq![TagText { name: "Текстовый блок"@, value: "присутствует"@ }]
        } else {
            Seq::empty()
        }) + lines_of(list.skip(1))
    }
}

proof fn lemma_chain_found(d: Seq<u8>, p: int, parts: Seq<Seq<u8>>)
    requires
        forall|i: int| 0 <= i < parts.len() ==> 0 < (#[trigger] parts[i]).len() < 256,
        0 <= p,
        p + chain(parts).len() <= d.len(),
        d.subrange(p, p + chain(parts).len()) == chain(parts),
    ensures
        chain_end(d, p) == p + chain(parts).len(),
        chain(parts).len() > 0,
    decreases parts.len(),
{
    let whole = chain(parts);
    let here = d.subrange(p, p + whole.len());
    assert(here[0] == d[p]);
    if parts.len() > 0 {
        let rest = parts.skip(1);
        let m = parts[0].len() as int;
        assert(whole[0] == m);
        assert(whole.skip(1 + m) =~= chain(rest));
        assert(d.subrange(p + 1 + m, p + 1 + m + chain(rest).len()) =~= here.skip(1 + m));
        assert forall|i: int| 0 <= i < rest.len() implies 0 < (#[trigger] rest[i]).len() < 256 by {
            assert(rest[i] == parts[i + 1]);
        }
        lemma_chain_found(d, p + 1 + m, rest);
    }
}

proof fn lemma_data_found(b: Seq<u8>, p: int, parts: Seq<Seq<u8>>)
    requires
        forall|i: int| 0 <= i < parts.len() ==> 0 < (#[trigger] parts[i]).len() < 256,
        0 <= p,
        p + chain(parts).len() <= b.len(),
        b.subrange(p, p + chain(parts).len()) == chain(parts),
    ensures
        unblocked(b, p) == data_of(parts),
    decreases parts.len(),
{
    let whole = chain(parts);
    let here = b.subrange(p, p + whole.len());
    lemma_chain_found(b, p, parts);
    assert(here[0] == b[p]);
    if parts.len() > 0 {
        let rest = parts.skip(1);
        let m = parts[0].len() as int;
        assert(whole[0] == m);
        assert(whole.skip(1 + m) =~= chain(rest));
        assert(whole.subrange(1, 1 + m) =~= parts[0]);
        assert(b.subrange(p + 1, p + 1 + m) =~= here.subrange(1, 1 + m));
        assert(b.subrange(p + 1 + m, p + 1 + m + chain(rest).len()) =~= here.skip(1 + m));
        assert forall|i: int| 0 <= i < rest.len() implies 0 < (#[trigger] rest[i]).len() < 256 by {
            assert(rest[i] == parts[i + 1]);
        }
        lemma_data_found(b, p + 1 + m, rest);
    }
}

/// A block that stands at `pos` is found there.
proof fn lemma_scene_found(d: Seq<u8>, pos: int, s: Scene)
    requires
        is_scene(s),
        0 <= pos,
        pos + s.opening.len() + chain(s.parts).len() <= d.len(),
        d.subrange(pos, pos + s.opening.len() + chain(s.parts).len()) == s.opening + chain(s.parts),
    ensures
        chain(s.parts).len() > 0,
        d[pos] == s.opening[0],
        block_at(d, pos) == (Span {
            label: (if s.opening[0] == 33 {
                Some(s.opening[1])
            } else {
                None
            }),
            start: pos,
            end: pos + s.opening.len() + chain(s.parts).len(),
        }),
        d.subrange(
            pos + s.opening.len(),
            pos + s.opening.len() + chain(s.parts).len(),
        ) == chain(s.parts),
{
    let n = s.opening.len() as int;
    let whole = s.opening + chain(s.parts);
    assert forall|k: int| 0 <= k < whole.len() implies #[trigger] d[pos + k] == whole[k] by {
        assert(d.subrange(pos, pos + whole.len())[k] == whole[k]);
    }
    assert(d[pos + 0] == s.opening[0]);
    assert(d[pos + 1] == s.opening[1]);
    assert(n >= 11 ==> d[pos + 9] == s.opening[9]);
    assert(chain_start(d, pos) == pos + n);
    assert(d.subrange(pos + n, pos + n + chain(s.parts).len()) =~= chain(s.parts)) by {
        assert(whole.skip(n) =~= chain(s.parts));
    }
    lemma_chain_found(d, pos + n, s.parts);
}

proof fn lemma_front_filter(list: Seq<Scene>, pred: spec_fn(Scene) -> bool)
    requires
        list.len() > 0,
    ensures
        list.filter(pred) == (if pred(list[0]) {
            seq![list[0]] + list.skip(1).filter(pred)
        } else {
            list.skip(1).filter(pred)
        }),
{
    let first = seq![list[0]];
    assert(list =~= first + list.skip(1));
    Seq::filter_distributes_over_add(first, list.skip(1), pred);
    reveal(Seq::filter);
    assert(first.drop_last() =~= Seq::empty());
    assert(first.drop_last().filter(pred) =~= Seq::empty());
    if pred(list[0]) {
        assert(first.filter(pred) =~= first);
    } else {
        assert(first.filter(pred) =~= Seq::empty());
        assert(Seq::empty() + list.skip(1).filter(pred) =~= list.skip(1).filter(pred));
    }
}

proof fn lemma_scene_lines(d: Seq<u8>, pos: int, s: Scene)
    requires
        is_scene(s),
        s.opening[0] == 33 && s.opening[1] == 255 ==> s.parts.len() > 0 && s.parts[0].len() == 11,
        0 <= pos,
        pos + s.opening.len() + chain(s.parts).len() <= d.len(),
        d.subrange(pos, pos + s.opening.len() + chain(s.parts).len()) == s.opening + chain(s.parts),
    ensures
        block_tags(d, block_at(d, pos)) + lines_of(Seq::empty()) == lines_of(seq![s]),
        lines_of(Seq::empty()) == Seq::<TagText>::empty(),
{
    lemma_scene_found(d, pos, s);
    let b = block_at(d, pos);
    let body = d.subrange(pos + 2, b.end);
    assert(seq![s].skip(1) =~= Seq::empty());
    if s.opening[0] == 33 {
        assert(s.opening.len() == 2);
        assert(body.subrange(0, chain(s.parts).len() as int) =~= chain(s.parts));
        lemma_data_found(body, 0, s.parts);
        if s.opening[1] == 255 {
            let whole = chain(s.parts);
            assert(whole.subrange(1, 12) =~= s.parts[0]);
            assert(body =~= whole);
        }
    }
}

proof fn lemma_lines_front(list: Seq<Scene>)
    requires
        list.len() > 0,
    ensures
        lines_of(list) == lines_of(seq![list[0]]) + lines_of(list.skip(1)),
{
    assert(seq![list[0]].skip(1) =~= Seq::empty());
    assert(lines_of(Seq::empty()) =~= Seq::empty());
    let own = lines_of(seq![list[0]]);
    assert(own + lines_of(list.skip(1)) =~= lines_of(list));
}

/// Reading and cleaning the rest of an animation, from a block on.
proof fn lemma_animation(d: Seq<u8>, pos: int, list: Seq<Scene>, junk: Seq<u8>)
    requires
        forall|i: int| 0 <= i < list.len() ==> is_scene(#[trigger] list[i]),
        forall|i: int|
            0 <= i < list.len() && (#[trigger] list[i]).opening[0] == 33 && list[i].opening[1] == 255
                ==> list[i].parts.len() > 0 && list[i].parts[0].len() == 11,
        0 <= pos <= d.len(),
        d.subrange(pos, d.len() as int) == (row(list).push(59) + junk),
    ensures
        scan(d, pos) is Ok,
        kept(d, scan(d, pos)->Ok_0) == row(list.filter(
            |s: Scene|
            !(s.opening[0] == 0x21 && (s.opening[1] == 0xFE || s.opening[1] == 0xFF || s.opening[1]
                == 0x01)),
        )),
        all_tags(d, scan(d, pos)->Ok_0) == lines_of(list),
    decreases list.len(),
{
    let n = d.len() as int;
    let tail = d.subrange(pos, n);
    let pred = |s: Scene|
            !(s.opening[0] == 0x21 && (s.opening[1] == 0xFE || s.opening[1] == 0xFF || s.opening[1]
                == 0x01));
    if list.len() == 0 {
        assert(tail[0] == 59 && d[pos] == tail[0]);
        reveal(Seq::filter);
        assert(list.filter(pred) =~= list);
        assert(scan(d, pos) == Ok::<_, Seq<char>>(Seq::<Span>::empty()));
    } else {
        let s = list[0];
        let piece = s.opening + chain(s.parts);
        let end = pos + piece.len();
        let rest = list.skip(1);
        assert(is_scene(s));
        assert(tail =~= piece + (row(rest).push(59) + junk));
        assert(d.subrange(pos, end) =~= piece) by {
            assert(tail.take(piece.len() as int) =~= piece);
            assert(d.subrange(pos, end) =~= tail.take(piece.len() as int));
        }
        lemma_scene_found(d, pos, s);
        lemma_scene_lines(d, pos, s);
        lemma_front_filter(list, pred);
        lemma_lines_front(list);
        assert(d.subrange(end, n) =~= row(rest).push(59) + junk) by {
            assert(d.subrange(end, n) =~= tail.skip(piece.len() as int));
        }
        assert forall|i: int| 0 <= i < rest.len() implies rest[i] == list[i + 1] by {}
        lemma_animation(d, end, rest, junk);
        let b = block_at(d, pos);
        let found = scan(d, end)->Ok_0;
        let both = seq![b] + found;
        assert(scan(d, pos) == Ok::<_, Seq<char>>(both));
        assert(both.skip(1) =~= found);
        if pred(s) {
            let left = seq![s] + rest.filter(pred);
            assert(left.skip(1) =~= rest.filter(pred));
            assert(row(left) =~= piece + row(rest.filter(pred)));
        }
        assert(block_tags(d, b) =~= lines_of(seq![s]));
    }
}

/// Cleaning takes comments, extensions of programs and plain texts out of an animation and
/// nothing else: the opening, the frames and what controls them stay as they are and in their
/// order. What stands behind the closing byte goes.
pub proof fn cleaning_loses_nothing_but_remarks(top: Seq<u8>, list: Seq<Scene>, junk: Seq<u8>)
    requires
        is_opening(top),
        forall|i: int| 0 <= i < list.len() ==> is_scene(#[trigger] list[i]),
        forall|i: int|
            0 <= i < list.len() && (#[trigger] list[i]).opening[0] == 33 && list[i].opening[1] == 255
                ==> list[i].parts.len() > 0 && list[i].parts[0].len() == 11,
    ensures
        cleaned(top + row(list).push(0x3B) + junk) == Ok::<_, Seq<char>>(
            top + row(
                list.filter(
                    |s: Scene|
                        !(s.opening[0] == 0x21 && (s.opening[1] == 0xFE || s.opening[1] == 0xFF
                            || s.opening[1] == 0x01)),
                ),
            ).push(0x3B),
        ),
        tags(top + row(list).push(0x3B) + junk) == Ok::<_, Seq<char>>(lines_of(list)),
{
    let d = top + row(list).push(0x3B) + junk;
    let n = top.len() as int;
    assert(GIF87@ =~= seq![71u8, 73, 70, 56, 55, 97]);
    assert(GIF89@ =~= seq![71u8, 73, 70, 56, 57, 97]);
    assert(d.subrange(0, 6) =~= seq![71u8, 73, 70, 56, top[4], 97]);
    assert(d[10] == top[10]);
    assert(header_len(d) == n);
    assert(d.subrange(n, d.len() as int) =~= row(list).push(59) + junk);
    lemma_animation(d, n, list, junk);
    assert(d.take(n) =~= top);
    let pred = |s: Scene|
            !(s.opening[0] == 0x21 && (s.opening[1] == 0xFE || s.opening[1] == 0xFF || s.opening[1]
                == 0x01));
    let left = row(list.filter(pred));
    assert((top + left).push(0x3B) =~= top + left.push(0x3B));
}

/// What is no GIF is refused, and so is one that breaks off in its colours or holds a block of
/// an unknown kind.
pub proof fn broken_animation_is_refused(d: Seq<u8>)
    ensures
        d.len() < 13 || d[0] != 71 || d[1] != 73 || d[2] != 70 || d[3] != 56 || (d[4] != 55 && d[4]
            != 57) || d[5] != 97 ==> tags(d) is Err && cleaned(d) is Err,
        d.len() >= 13 && 13 + colours(d[10]) > d.len() ==> cleaned(d) is Err,
        ({
            let at = 13 + colours(d[10]);
            13 <= at < d.len() && d[at] != 0x3B && d[at] != 0x21 && d[at] != 0x2C ==> tags(d) is Err
                && cleaned(d) is Err
        }),
{
    assert(GIF87@ =~= seq![71u8, 73, 70, 56, 55, 97]);
    assert(GIF89@ =~= seq![71u8, 73, 70, 56, 57, 97]);
    if d.len() >= 13 {
        let s = d.subrange(0, 6);
        assert(s[0] == d[0] && s[1] == d[1] && s[2] == d[2] && s[3] == d[3] && s[4] == d[4] && s[5]
            == d[5]);
        assert(header_len(d) == 13 + colours(d[10]));
    }
}

} // verus!
