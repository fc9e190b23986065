//! EXIF: a block in TIFF layout, a header and a chain of directories.
use crate::bytes;
use crate::metadata::tag;
use crate::metadata::tag::{Tag, TagText};
use crate::ratio;
use crate::text;
use vstd::prelude::*;
use vstd::slice::slice_subrange;

verus! {

/// How many entries of one directory are read.
pub const IFD_ENTRY_LIMIT: usize = 512;

/// How deep directories may refer to further ones.
pub const IFD_DEPTH_LIMIT: usize = 4;

/// How many components a value may have.
pub const COMPONENT_LIMIT: usize = 1_000_000;

/// The byte order that the header of a TIFF block declares: big-endian or not.
pub open spec fn endian(d: Seq<u8>) -> Option<bool> {
    if d.len() < 8 {
        None
    } else if d[0] == 0x4D && d[1] == 0x4D && bytes::be16(d, 2) == 42 {
        Some(true)
    } else if d[0] == 0x49 && d[1] == 0x49 && bytes::le16(d, 2) == 42 {
        Some(false)
    } else {
        None
    }
}

pub fn tiff_endian(data: &[u8]) -> (r: Option<bool>)
    ensures
        r == endian(data@),
{
    if data.len() < 8 {
        return None;
    }
    let be: bool = if data[0] == 0x4D && data[1] == 0x4D {
        true
    } else if data[0] == 0x49 && data[1] == 0x49 {
        false
    } else {
        return None;
    };
    match bytes::read_u16(data, 2, be) {
        Some(42) => Some(be),
        _ => None,
    }
}

/// The size of one component of each TIFF type; zero for an unknown type.
pub open spec fn unit(format: u16) -> int {
    if format == 1 || format == 2 || format == 6 || format == 7 {
        1
    } else if format == 3 || format == 8 {
        2
    } else if format == 4 || format == 9 || format == 11 {
        4
    } else if format == 5 || format == 10 || format == 12 {
        8
    } else {
        0
    }
}

pub fn tiff_unit(format: u16) -> (r: usize)
    ensures
        r == unit(format),
{
    match format {
        1 | 2 | 6 | 7 => 1,
        3 | 8 => 2,
        4 | 9 | 11 => 4,
        5 | 10 | 12 => 8,
        _ => 0,
    }
}

/// The name under which a tag of the GPS directory is shown.
pub open spec fn gps_label(tag: u16) -> Option<Seq<char>> {
    match tag {
        0x0001 => Some("GPS: широта (полушарие)"@),
        0x0002 => Some("GPS: широта"@),
        0x0003 => Some("GPS: долгота (полушарие)"@),
        0x0004 => Some("GPS: долгота"@),
        0x0006 => Some("GPS: высота"@),
        0x0007 => Some("GPS: время съёмки (UTC)"@),
        0x001D => Some("GPS: дата"@),
        _ => None,
    }
}

/// The name under which a tag of any directory is shown.
pub open spec fn plain_label(tag: u16) -> Option<Seq<char>> {
    match tag {
        0x010E => Some("Описание"@),
        0x010F => Some("Производитель"@),
        0x0110 => Some("Модель камеры"@),
        0x0112 => Some("Ориентация"@),
        0x0131 => Some("Программа"@),
        0x0132 => Some("Дата изменения"@),
        0x013B => Some("Автор"@),
        0x8298 => Some("Авторские права"@),
        0x829A => Some("Выдержка"@),
        0x829D => Some("Диафрагма"@),
        0x8827 => Some("ISO"@),
        0x9003 => Some("Дата съёмки"@),
        0x9004 => Some("Дата оцифровки"@),
        0x920A => Some("Фокусное расстояние"@),
        0xA002 => Some("Ширина"@),
        0xA003 => Some("Высота"@),
        0xA430 => Some("Владелец камеры"@),
        0xA433 => Some("Производитель объектива"@),
        0xA434 => Some("Модель объектива"@),
        0xA435 => Some("Серийный номер объектива"@),
        0xC62F => Some("Серийный номер камеры"@),
        _ => None,
    }
}

/// The name under which a tag is shown. The numbers of GPS tags overlap with those of the
/// main directory, so nested directories go by the GPS table first.
pub open spec fn label(tag: u16, nested: bool) -> Option<Seq<char>> {
    if nested && gps_label(tag) is Some {
        gps_label(tag)
    } else {
        plain_label(tag)
    }
}

pub fn tag_name(tag: u16, nested: bool) -> (r: Option<&'static str>)
    ensures
        r is Some <==> label(tag, nested) is Some,
        r matches Some(name) ==> label(tag, nested) == Some(name@),
{
    if nested {
        match tag {
            0x0001 => return Some("GPS: широта (полушарие)"),
            0x0002 => return Some("GPS: широта"),
            0x0003 => return Some("GPS: долгота (полушарие)"),
            0x0004 => return Some("GPS: долгота"),
            0x0006 => return Some("GPS: высота"),
            0x0007 => return Some("GPS: время съёмки (UTC)"),
            0x001D => return Some("GPS: дата"),
            _ => {},
        }
    }
    match tag {
        0x010E => Some("Описание"),
        0x010F => Some("Производитель"),
        0x0110 => Some("Модель камеры"),
        0x0112 => Some("Ориентация"),
        0x0131 => Some("Программа"),
        0x0132 => Some("Дата изменения"),
        0x013B => Some("Автор"),
        0x8298 => Some("Авторские права"),
        0x829A => Some("Выдержка"),
        0x829D => Some("Диафрагма"),
        0x8827 => Some("ISO"),
        0x9003 => Some("Дата съёмки"),
        0x9004 => Some("Дата оцифровки"),
        0x920A => Some("Фокусное расстояние"),
        0xA002 => Some("Ширина"),
        0xA003 => Some("Высота"),
        0xA430 => Some("Владелец камеры"),
        0xA433 => Some("Производитель объектива"),
        0xA434 => Some("Модель объектива"),
        0xA435 => Some("Серийный номер объектива"),
        0xC62F => Some("Серийный номер камеры"),
        _ => None,
    }
}

/// A fraction as it is shown: whole where it is whole, else to four places.
pub open spec fn rational(n: int, d: int) -> Seq<char> {
    if d == 0 {
        seq!['0']
    } else if n % d == 0 {
        text::decimal((n / d) as nat)
    } else {
        ratio::four_places(n as nat, d as nat)
    }
}

pub fn rational_text(n: u32, d: u32) -> (r: String)
    ensures
        r@ == rational(n as int, d as int),
{
    if d == 0 {
        let mut out = String::new();
        out.push('0');
        assert(out@ =~= seq!['0']);
        out
    } else if n % d == 0 {
        text::decimal_text((n / d) as u64)
    } else {
        proof {
            if n == 0 {
                assert(0int % (d as int) == 0) by (nonlinear_arith)
                    requires
                        d > 0,
                ;
            }
        }
        ratio::four_places_text(n, d)
    }
}

/// Component `i` of a value of a numeric type, as text.
pub open spec fn component(b: Seq<u8>, format: u16, i: int, be: bool) -> Seq<char> {
    if format == 5 || format == 10 {
        rational(bytes::word32(b, i * 8, be), bytes::word32(b, i * 8 + 4, be))
    } else if format == 3 || format == 8 {
        text::decimal(bytes::word16(b, i * 2, be) as nat)
    } else {
        text::decimal(bytes::word32(b, i * 4, be) as nat)
    }
}

/// The first `k` components, separated by commas.
pub open spec fn listed(b: Seq<u8>, format: u16, k: int, be: bool) -> Seq<char>
    decreases k,
{
    if k <= 0 {
        Seq::empty()
    } else if k == 1 {
        component(b, format, 0, be)
    } else {
        listed(b, format, k - 1, be) + seq![',', ' '] + component(b, format, k - 1, be)
    }
}

/// How the bytes of a value of the given type are shown.
pub open spec fn rendered(b: Seq<u8>, format: u16, components: int, be: bool) -> Seq<char> {
    if format == 2 {
        text::value_text(b)
    } else if format == 5 || format == 10 || format == 3 || format == 8 || format == 4 || format
        == 9 {
        listed(b, format, components, be)
    } else {
        text::decimal((unit(format) * components) as nat) + seq![' ', 'Б']
    }
}

/// Where the bytes of a value start: in the entry itself up to four of them, else at the
/// offset that the entry holds.
pub open spec fn value_start(d: Seq<u8>, value_at: int, total: int, be: bool) -> int {
    if total <= 4 {
        value_at
    } else {
        bytes::word32(d, value_at, be)
    }
}

/// The text of a value, where its type is known, its size is sane and its bytes are there.
pub open spec fn value(
    d: Seq<u8>,
    value_at: int,
    format: u16,
    components: int,
    be: bool,
) -> Option<Seq<char>> {
    let total = unit(format) * components;
    let start = value_start(d, value_at, total, be);
    if unit(format) == 0 || components == 0 || components > COMPONENT_LIMIT {
        None
    } else if total > 4 && value_at + 4 > d.len() {
        None
    } else if start + total > d.len() {
        None
    } else {
        Some(rendered(d.subrange(start, start + total), format, components, be))
    }
}

fn component_text(b: &[u8], format: u16, i: usize, be: bool) -> (r: String)
    requires
        format == 5 || format == 10 || format == 3 || format == 8 || format == 4 || format == 9,
        (i + 1) * unit(format) <= b@.len(),
    ensures
        r@ == component(b@, format, i as int, be),
{
    let len = b.len();
    assert((i + 1) * unit(format) <= len);
    if format == 5 || format == 10 {
        match (bytes::read_u32(b, i * 8, be), bytes::read_u32(b, i * 8 + 4, be)) {
            (Some(n), Some(d)) => rational_text(n, d),
            _ => String::new(),
        }
    } else if format == 3 || format == 8 {
        match bytes::read_u16(b, i * 2, be) {
            Some(v) => text::decimal_text(v as u64),
            None => String::new(),
        }
    } else {
        match bytes::read_u32(b, i * 4, be) {
            Some(v) => text::decimal_text(v as u64),
            None => String::new(),
        }
    }
}

fn list_text(b: &[u8], format: u16, components: usize, be: bool) -> (r: String)
    requires
        format == 5 || format == 10 || format == 3 || format == 8 || format == 4 || format == 9,
        components * unit(format) <= b@.len(),
    ensures
        r@ == listed(b@, format, components as int, be),
{
    let mut out = String::new();
    let mut k: usize = 0;
    while k < components
        invariant
            k <= components,
            format == 5 || format == 10 || format == 3 || format == 8 || format == 4 || format == 9,
            components * unit(format) <= b@.len(),
            out@ == listed(b@, format, k as int, be),
        decreases components - k,
    {
        assert((k + 1) * unit(format) <= components * unit(format)) by (nonlinear_arith)
            requires
                k < components,
                unit(format) >= 0,
        ;
        let part = component_text(b, format, k, be);
        if k > 0 {
            out.push(',');
            out.push(' ');
        }
        out.append(part.as_str());
        k += 1;
        assert(out@ =~= listed(b@, format, k as int, be));
    }
    out
}

pub fn tiff_value(
    data: &[u8],
    value_at: usize,
    format: u16,
    components: usize,
    be: bool,
) -> (r: Option<String>)
    ensures
        r is Some <==> value(data@, value_at as int, format, components as int, be) is Some,
        r matches Some(t) ==> value(data@, value_at as int, format, components as int, be) == Some(
            t@,
        ),
{
    let one = tiff_unit(format);
    if one == 0 || components == 0 || components > COMPONENT_LIMIT {
        return None;
    }
    let total: usize = one * components;
    let start: usize = if total <= 4 {
        value_at
    } else {
        match bytes::read_u32(data, value_at, be) {
            Some(at) => at as usize,
            None => return None,
        }
    };
    if !bytes::fits(data.len(), start, total) {
        return None;
    }
    let b = slice_subrange(data, start, start + total);
    if format == 2 {
        return Some(text::text_value(b));
    }
    if format == 5 || format == 10 || format == 3 || format == 8 || format == 4 || format == 9 {
        assert(components * unit(format) == unit(format) * components) by (nonlinear_arith);
        return Some(list_text(b, format, components, be));
    }
    let mut out = text::decimal_text(total as u64);
    out.push(' ');
    out.push('Б');
    assert(out@ =~= text::decimal(total as nat) + seq![' ', 'Б']);
    Some(out)
}

/// What reading directories has gathered: the tags, and the offsets of the directories
/// already entered.
#[verifier::ext_equal]
pub struct Walk {
    pub tags: Seq<TagText>,
    pub seen: Seq<int>,
}

/// How many entries of the directory at `offset` are read.
pub open spec fn entry_count(d: Seq<u8>, offset: int, be: bool) -> int {
    let declared = bytes::word16(d, offset, be);
    if declared < IFD_ENTRY_LIMIT {
        declared
    } else {
        IFD_ENTRY_LIMIT as int
    }
}

/// Reads the directory at `offset`, the ones it holds and the ones it is followed by. A
/// directory that was entered before, lies past the end or too deep adds nothing.
pub open spec fn directory(d: Seq<u8>, offset: int, be: bool, w: Walk, depth: int) -> Walk
    decreases 5 - depth, 1int, 0int,
{
    if depth > IFD_DEPTH_LIMIT || w.seen.contains(offset) || offset + 2 > d.len() {
        w
    } else {
        let count = entry_count(d, offset, be);
        let (w, whole) = entries(
            d,
            offset,
            be,
            Walk { tags: w.tags, seen: w.seen.push(offset) },
            depth,
            0,
            count,
        );
        let next = offset + 2 + count * 12;
        if whole && next + 4 <= d.len() && bytes::word32(d, next, be) != 0 {
            directory(d, bytes::word32(d, next, be), be, w, depth + 1)
        } else {
            w
        }
    }
}

/// Reads the entries `i..count` of a directory; also tells whether all of them were there.
pub open spec fn entries(
    d: Seq<u8>,
    offset: int,
    be: bool,
    w: Walk,
    depth: int,
    i: int,
    count: int,
) -> (Walk, bool)
    decreases 5 - depth, 0int, count - i,
{
    let at = offset + 2 + i * 12;
    if i >= count {
        (w, true)
    } else if at + 12 > d.len() {
        (w, false)
    } else {
        let tag = bytes::word16(d, at, be) as u16;
        let after = if tag == 0x8769 || tag == 0x8825 {
            if depth > IFD_DEPTH_LIMIT {
                w
            } else {
                directory(d, bytes::word32(d, at + 8, be), be, w, depth + 1)
            }
        } else {
            Walk { tags: w.tags + entry_tags(d, at, be, depth), seen: w.seen }
        };
        entries(d, offset, be, after, depth, i + 1, count)
    }
}

/// The tag of an entry that holds a value: one where the tag has a name and the value a
/// text, else none.
pub open spec fn entry_tags(d: Seq<u8>, at: int, be: bool, depth: int) -> Seq<TagText> {
    let tag = bytes::word16(d, at, be) as u16;
    let format = bytes::word16(d, at + 2, be) as u16;
    let components = bytes::word32(d, at + 4, be);
    match (label(tag, depth > 0), value(d, at + 8, format, components, be)) {
        (Some(name), Some(v)) => seq![tag::said(name, v)],
        _ => Seq::empty(),
    }
}

/// The tags of an EXIF block. A block that is no TIFF has none.
pub open spec fn tags(d: Seq<u8>) -> Seq<TagText> {
    match endian(d) {
        None => Seq::empty(),
        Some(be) => directory(
            d,
            bytes::word32(d, 4, be),
            be,
            Walk { tags: Seq::empty(), seen: Seq::empty() },
            0,
        ).tags,
    }
}

/// The offsets in `seen`.
pub open spec fn offsets(seen: Seq<usize>) -> Seq<int> {
    seen.map_values(|o: usize| o as int)
}

fn was_seen(seen: &Vec<usize>, offset: usize) -> (r: bool)
    ensures
        r == offsets(seen@).contains(offset as int),
{
    let mut i: usize = 0;
    while i < seen.len()
        invariant
            i <= seen@.len(),
            forall|k: int| 0 <= k < i ==> seen@[k] != offset,
        decreases seen@.len() - i,
    {
        if seen[i] == offset {
            assert(offsets(seen@)[i as int] == offset);
            return true;
        }
        i += 1;
    }
    false
}

fn read_entry(data: &[u8], at: usize, be: bool, tags: &mut Vec<Tag>, depth: usize)
    requires
        at + 12 <= data@.len(),
    ensures
        tag::texts(final(tags)@) == tag::texts(old(tags)@) + entry_tags(
            data@,
            at as int,
            be,
            depth as int,
        ),
{
    let len = data.len();
    match (
        bytes::read_u16(data, at, be),
        bytes::read_u16(data, at + 2, be),
        bytes::read_u32(data, at + 4, be),
    ) {
        (Some(tag), Some(format), Some(components)) => {
            if let Some(name) = tag_name(tag, depth > 0) {
                if let Some(text) = tiff_value(data, at + 8, format, components as usize, be) {
                    tag::push_tag(tags, name, text);
                }
            }
        },
        _ => {},
    }
    assert(tag::texts(tags@) =~= tag::texts(old(tags)@) + entry_tags(
        data@,
        at as int,
        be,
        depth as int,
    ));
}

pub fn read_ifd(
    data: &[u8],
    offset: usize,
    be: bool,
    tags: &mut Vec<Tag>,
    seen: &mut Vec<usize>,
    depth: usize,
)
    ensures
        (Walk { tags: tag::texts(final(tags)@), seen: offsets(final(seen)@) }) == directory(
            data@,
            offset as int,
            be,
            Walk { tags: tag::texts(old(tags)@), seen: offsets(old(seen)@) },
            depth as int,
        ),
    decreases 5 - depth,
{
    if depth > IFD_DEPTH_LIMIT || was_seen(seen, offset) || !bytes::fits(data.len(), offset, 2) {
        return;
    }
    let ghost w0 = Walk { tags: tag::texts(tags@), seen: offsets(seen@).push(offset as int) };
    seen.push(offset);
    assert(offsets(seen@) =~= w0.seen);
    let declared: u16 = match bytes::read_u16(data, offset, be) {
        Some(n) => n,
        None => 0,
    };
    let count: usize = if (declared as usize) < IFD_ENTRY_LIMIT {
        declared as usize
    } else {
        IFD_ENTRY_LIMIT
    };
    let len = data.len();
    let mut at: usize = offset + 2;
    let mut i: usize = 0;
    while i < count
        invariant
            depth <= IFD_DEPTH_LIMIT,
            len == data@.len(),
            count <= IFD_ENTRY_LIMIT,
            i <= count,
            at == offset + 2 + i * 12,
            at <= len,
            entries(data@, offset as int, be, w0, depth as int, 0, count as int) == entries(
                data@,
                offset as int,
                be,
                Walk { tags: tag::texts(tags@), seen: offsets(seen@) },
                depth as int,
                i as int,
                count as int,
            ),
            directory(
                data@,
                offset as int,
                be,
                Walk { tags: tag::texts(old(tags)@), seen: offsets(old(seen)@) },
                depth as int,
            ) == ({
                let (w, whole) = entries(
                    data@,
                    offset as int,
                    be,
                    w0,
                    depth as int,
                    0,
                    count as int,
                );
                let next = offset + 2 + count * 12;
                if whole && next + 4 <= data@.len() && bytes::word32(data@, next, be) != 0 {
                    directory(data@, bytes::word32(data@, next, be), be, w, depth + 1)
                } else {
                    w
                }
            }),
        decreases count - i,
    {
        if !bytes::fits(len, at, 12) {
            return;
        }
        let ghost w = Walk { tags: tag::texts(tags@), seen: offsets(seen@) };
        match bytes::read_u16(data, at, be) {
            Some(tag) => {
                if tag == 0x8769 || tag == 0x8825 {
                    if let Some(sub) = bytes::read_u32(data, at + 8, be) {
                        read_ifd(data, sub as usize, be, tags, seen, depth + 1);
                    }
                } else {
                    read_entry(data, at, be, tags, depth);
                }
            },
            None => {},
        }
        at += 12;
        i += 1;
    }
    if let Some(link) = bytes::read_u32(data, at, be) {
        if link != 0 {
            read_ifd(data, link as usize, be, tags, seen, depth + 1);
        }
    }
}

/// Reads an EXIF block. A damaged block is no error: what can be read is shown.
pub fn read_tiff(data: &[u8]) -> (r: Vec<Tag>)
    ensures
        tag::texts(r@) == tags(data@),
{
    let mut out: Vec<Tag> = Vec::new();
    let mut seen: Vec<usize> = Vec::new();
    assert(tag::texts(out@) =~= Seq::empty());
    assert(offsets(seen@) =~= Seq::empty());
    if let Some(be) = tiff_endian(data) {
        if let Some(first) = bytes::read_u32(data, 4, be) {
            read_ifd(data, first as usize, be, &mut out, &mut seen, 0);
        }
    }
    out
}

/// Reading enters no directory twice, whatever the directories refer to.
pub proof fn no_directory_is_entered_twice(d: Seq<u8>, offset: int, be: bool, w: Walk, depth: int)
    requires
        w.seen.no_duplicates(),
    ensures
        directory(d, offset, be, w, depth).seen.no_duplicates(),
    decreases 5 - depth, 1int, 0int,
{
    if !(depth > IFD_DEPTH_LIMIT || w.seen.contains(offset) || offset + 2 > d.len()) {
        let count = entry_count(d, offset, be);
        let entered = Walk { tags: w.tags, seen: w.seen.push(offset) };
        lemma_entries_enter_once(d, offset, be, entered, depth, 0, count);
        let (after, whole) = entries(d, offset, be, entered, depth, 0, count);
        let next = offset + 2 + count * 12;
        if whole && next + 4 <= d.len() && bytes::word32(d, next, be) != 0 {
            no_directory_is_entered_twice(d, bytes::word32(d, next, be), be, after, depth + 1);
        }
    }
}

proof fn lemma_entries_enter_once(
    d: Seq<u8>,
    offset: int,
    be: bool,
    w: Walk,
    depth: int,
    i: int,
    count: int,
)
    requires
        w.seen.no_duplicates(),
    ensures
        entries(d, offset, be, w, depth, i, count).0.seen.no_duplicates(),
    decreases 5 - depth, 0int, count - i,
{
    let at = offset + 2 + i * 12;
    if i < count && at + 12 <= d.len() {
        let tag = bytes::word16(d, at, be) as u16;
        if (tag == 0x8769 || tag == 0x8825) && depth <= IFD_DEPTH_LIMIT {
            let sub = bytes::word32(d, at + 8, be);
            no_directory_is_entered_twice(d, sub, be, w, depth + 1);
            lemma_entries_enter_once(
                d,
                offset,
                be,
                directory(d, sub, be, w, depth + 1),
                depth,
                i + 1,
                count,
            );
        } else if tag == 0x8769 || tag == 0x8825 {
            lemma_entries_enter_once(d, offset, be, w, depth, i + 1, count);
        } else {
            lemma_entries_enter_once(
                d,
                offset,
                be,
                Walk { tags: w.tags + entry_tags(d, at, be, depth), seen: w.seen },
                depth,
                i + 1,
                count,
            );
        }
    }
}

/// The two bytes at `at` as a number, the first byte high or low.
pub open spec fn pair(d: Seq<u8>, at: int, high_first: bool) -> int {
    if high_first {
        256 * d[at] + d[at + 1]
    } else {
        d[at] + 256 * d[at + 1]
    }
}

/// The four bytes at `at` as a number, the first byte highest or lowest.
pub open spec fn quad(d: Seq<u8>, at: int, high_first: bool) -> int {
    if high_first {
        65536 * pair(d, at, true) + pair(d, at + 2, true)
    } else {
        pair(d, at, false) + 65536 * pair(d, at + 2, false)
    }
}

/// Whether a block begins as a TIFF does: "MM" and 42 with high bytes first, or "II" and 42
/// with low bytes first.
pub open spec fn is_block(d: Seq<u8>, high_first: bool) -> bool {
    &&& d.len() >= 8
    &&& high_first ==> d[0] == 77 && d[1] == 77 && d[2] == 0 && d[3] == 42
    &&& !high_first ==> d[0] == 73 && d[1] == 73 && d[2] == 42 && d[3] == 0
}

/// Whether entry `k` of the directory at `dir` is there, among the first 512: its twelve bytes
/// stand at `at`.
pub open spec fn is_entry(d: Seq<u8>, dir: int, k: int, at: int, high_first: bool) -> bool {
    &&& 0 <= dir
    &&& 0 <= k < pair(d, dir, high_first)
    &&& k < 512
    &&& at == dir + 2 + 12 * k
    &&& at + 12 <= d.len()
}

/// Whether the value of the entry at `at` can be read: `count` components of `size` bytes
/// each, as its type says, stand from `start` on, which is in the entry itself where they take
/// no more than four bytes.
pub open spec fn holds_value(
    d: Seq<u8>,
    at: int,
    high_first: bool,
    size: int,
    count: int,
    start: int,
) -> bool {
    let kind = pair(d, at + 2, high_first);
    &&& (kind == 1 || kind == 2 || kind == 6 || kind == 7) && size == 1 || (kind == 3 || kind == 8)
        && size == 2 || (kind == 4 || kind == 9 || kind == 11) && size == 4 || (kind == 5 || kind
        == 10 || kind == 12) && size == 8
    &&& count == quad(d, at + 4, high_first)
    &&& 0 < count <= 1_000_000
    &&& start == (if size * count <= 4 {
        at + 8
    } else {
        quad(d, at + 8, high_first)
    })
    &&& start + size * count <= d.len()
}

/// One number out of a value, as it is shown: a fraction whole where it is whole.
pub open spec fn shown_number(d: Seq<u8>, at: int, kind: int, high_first: bool) -> Seq<char> {
    if kind == 3 || kind == 8 {
        text::decimal(pair(d, at, high_first) as nat)
    } else if kind == 4 || kind == 9 {
        text::decimal(quad(d, at, high_first) as nat)
    } else {
        let above = quad(d, at, high_first);
        let below = quad(d, at + 4, high_first);
        if below == 0 {
            "0"@
        } else if above % below == 0 {
            text::decimal((above / below) as nat)
        } else {
            ratio::four_places(above as nat, below as nat)
        }
    }
}

/// A value as it is shown: text as text, numbers one by one, other bytes by how many they are.
pub open spec fn shown_value(
    d: Seq<u8>,
    kind: int,
    high_first: bool,
    size: int,
    count: int,
    start: int,
) -> Seq<char> {
    if kind == 2 {
        text::value_text(d.subrange(start, start + count))
    } else if kind == 3 || kind == 8 || kind == 4 || kind == 9 || kind == 5 || kind == 10 {
        text::joined(
            Seq::new(
                count as nat,
                |i: int| shown_number(d, start + size * i, kind, high_first),
            ),
            ", "@,
        )
    } else {
        text::decimal((size * count) as nat) + " Б"@
    }
}

/// A number in a block is read by the byte order of the block.
proof fn lemma_numbers(d: Seq<u8>, at: int, be: bool)
    ensures
        bytes::word16(d, at, be) == pair(d, at, be),
        bytes::word32(d, at, be) == quad(d, at, be),
        0 <= pair(d, at, be) < 0x1_0000,
        0 <= quad(d, at, be) < 0x1_0000_0000,
{
}

proof fn lemma_listed(
    d: Seq<u8>,
    b: Seq<u8>,
    kind: int,
    be: bool,
    size: int,
    count: int,
    start: int,
    k: int,
)
    requires
        (kind == 3 || kind == 8) && size == 2 || (kind == 4 || kind == 9) && size == 4 || (kind == 5
            || kind == 10) && size == 8,
        0 <= start,
        start + size * count <= d.len(),
        b == d.subrange(start, start + size * count),
        0 <= k <= count,
    ensures
        listed(b, kind as u16, k, be) == text::joined(
            Seq::new(count as nat, |i: int| shown_number(d, start + size * i, kind, be)).take(k),
            ", "@,
        ),
    decreases k,
{
    let parts = Seq::new(count as nat, |i: int| shown_number(d, start + size * i, kind, be));
    reveal_strlit(", ");
    assert(", "@ =~= seq![',', ' ']);
    if k > 0 {
        lemma_listed(d, b, kind, be, size, count, start, k - 1);
        assert(parts.take(k).drop_last() =~= parts.take(k - 1));
        let i = k - 1;
        assert(size * i + size <= size * count && size * i == i * size && 0 <= size * i)
            by (nonlinear_arith)
            requires
                0 <= i < count,
                0 < size,
        ;
        assert(component(b, kind as u16, i, be) == parts[i]) by {
            reveal_strlit("0");
            assert("0"@ =~= seq!['0']);
            let at = start + size * i;
            assert(forall|j: int| 0 <= j < size ==> b[i * size + j] == #[trigger] d[at + j]);
            assert(b[i * size] == d[at + 0]);
            assert(b[i * size + 1] == d[at + 1]);
            if size >= 4 {
                assert(b[i * size + 2] == d[at + 2]);
                assert(b[i * size + 3] == d[at + 3]);
            }
            if size == 8 {
                assert(b[i * size + 4] == d[at + 4]);
                assert(b[i * size + 5] == d[at + 5]);
                assert(b[i * size + 6] == d[at + 6]);
                assert(b[i * size + 7] == d[at + 7]);
            }
            lemma_numbers(b, i * size, be);
            lemma_numbers(d, at, be);
            lemma_numbers(b, i * size + 4, be);
            lemma_numbers(d, at + 4, be);
        }
        assert(parts.take(k).last() == parts[i]);
    } else {
        assert(parts.take(k) =~= Seq::empty());
    }
}

/// Where the bytes of a value are there, it has a text: letters as they are, numbers in the
/// byte order of the block and with commas between them, anything else by its size.
pub proof fn value_in_the_block_is_shown(
    d: Seq<u8>,
    at: int,
    high_first: bool,
    size: int,
    count: int,
    start: int,
)
    requires
        0 <= at,
        at + 12 <= d.len(),
        holds_value(d, at, high_first, size, count, start),
    ensures
        value(
            d,
            at + 8,
            pair(d, at + 2, high_first) as u16,
            count,
            high_first,
        ) == Some(shown_value(d, pair(d, at + 2, high_first), high_first, size, count, start)),
{
    let kind = pair(d, at + 2, high_first);
    lemma_numbers(d, at + 2, high_first);
    lemma_numbers(d, at + 8, high_first);
    assert(unit(kind as u16) == size);
    assert(size * count > 0) by (nonlinear_arith)
        requires
            size > 0,
            count > 0,
    ;
    let b = d.subrange(start, start + size * count);
    if kind == 3 || kind == 8 || kind == 4 || kind == 9 || kind == 5 || kind == 10 {
        lemma_listed(d, b, kind, high_first, size, count, start, count);
        let parts = Seq::new(
            count as nat,
            |i: int| shown_number(d, start + size * i, kind, high_first),
        );
        assert(parts.take(count) =~= parts);
    } else if kind != 2 {
        reveal_strlit(" Б");
        assert(" Б"@ =~= seq![' ', 'Б']);
    }
}

/// Whether every tag of a directory was gathered.
spec fn complete(d: Seq<u8>, dir: int, be: bool, tags: Seq<TagText>, depth: int) -> bool {
    forall|k: int, i: int|
        0 <= k < entry_count(d, dir, be) && dir + 2 + k * 12 + 12 <= d.len() && bytes::word16(
            d,
            dir + 2 + k * 12,
            be,
        ) != 0x8769 && bytes::word16(d, dir + 2 + k * 12, be) != 0x8825 && 0 <= i < entry_tags(
            d,
            dir + 2 + k * 12,
            be,
            depth,
        ).len() ==> tags.contains(#[trigger] entry_tags(d, dir + 2 + k * 12, be, depth)[i])
}

/// Whether one walk goes on from another: what was gathered stays.
spec fn goes_on(w: Walk, after: Walk) -> bool {
    &&& forall|t: TagText| #[trigger] w.tags.contains(t) ==> after.tags.contains(t)
    &&& forall|o: int| #[trigger] w.seen.contains(o) ==> after.seen.contains(o)
}

/// Whether every directory that was entered in between was gathered.
spec fn all_complete(d: Seq<u8>, be: bool, w: Walk, after: Walk) -> bool {
    forall|o: int|
        #[trigger] after.seen.contains(o) && !w.seen.contains(o) ==> complete(
            d,
            o,
            be,
            after.tags,
            1,
        )
}

proof fn lemma_names_below(d: Seq<u8>, at: int, be: bool, depth: int)
    requires
        depth >= 1,
    ensures
        entry_tags(d, at, be, depth) == entry_tags(d, at, be, 1),
{
}

proof fn lemma_complete_stays(d: Seq<u8>, be: bool, w: Walk, mid: Walk, after: Walk)
    requires
        all_complete(d, be, w, mid),
        all_complete(d, be, mid, after),
        goes_on(w, mid),
        goes_on(mid, after),
    ensures
        all_complete(d, be, w, after),
        goes_on(w, after),
{
    assert forall|o: int| #[trigger] after.seen.contains(o) && !w.seen.contains(o) implies complete(
        d,
        o,
        be,
        after.tags,
        1,
    ) by {
        if mid.seen.contains(o) {
            assert(complete(d, o, be, mid.tags, 1));
        }
    }
}

proof fn lemma_directory_complete(d: Seq<u8>, offset: int, be: bool, w: Walk, depth: int)
    requires
        depth >= 1,
    ensures
        goes_on(w, directory(d, offset, be, w, depth)),
        all_complete(d, be, w, directory(d, offset, be, w, depth)),
        depth <= IFD_DEPTH_LIMIT && offset + 2 <= d.len() ==> directory(
            d,
            offset,
            be,
            w,
            depth,
        ).seen.contains(offset),
    decreases 5 - depth, 1int, 0int,
{
    if !(depth > IFD_DEPTH_LIMIT || w.seen.contains(offset) || offset + 2 > d.len()) {
        let count = entry_count(d, offset, be);
        let entered = Walk { tags: w.tags, seen: w.seen.push(offset) };
        assert(entered.seen.contains(offset)) by {
            assert(entered.seen[w.seen.len() as int] == offset);
        }
        assert(goes_on(w, entered)) by {
            assert forall|o: int| #[trigger] w.seen.contains(o) implies entered.seen.contains(o) by {
                let k = choose|k: int| 0 <= k < w.seen.len() && w.seen[k] == o;
                assert(entered.seen[k] == o);
            }
        }
        lemma_entries_complete(d, offset, be, entered, depth, 0, count);
        let (mid, whole) = entries(d, offset, be, entered, depth, 0, count);
        assert(complete(d, offset, be, mid.tags, 1)) by {
            assert forall|k: int, i: int|
                0 <= k < entry_count(d, offset, be) && offset + 2 + k * 12 + 12 <= d.len()
                    && bytes::word16(d, offset + 2 + k * 12, be) != 0x8769 && bytes::word16(
                    d,
                    offset + 2 + k * 12,
                    be,
                ) != 0x8825 && 0 <= i < entry_tags(d, offset + 2 + k * 12, be, 1).len() implies
                mid.tags.contains(#[trigger] entry_tags(d, offset + 2 + k * 12, be, 1)[i]) by {
                lemma_names_below(d, offset + 2 + k * 12, be, depth);
                assert(mid.tags.contains(entry_tags(d, offset + 2 + k * 12, be, depth)[i]));
            }
        }
        assert(all_complete(d, be, w, mid)) by {
            assert forall|o: int| #[trigger] mid.seen.contains(o) && !w.seen.contains(o) implies
                complete(d, o, be, mid.tags, 1) by {
                if entered.seen.contains(o) {
                    let k = choose|k: int| 0 <= k < entered.seen.len() && entered.seen[k] == o;
                    if k < w.seen.len() {
                        assert(w.seen[k] == o);
                    }
                }
            }
        }
        let next = offset + 2 + count * 12;
        if whole && next + 4 <= d.len() && bytes::word32(d, next, be) != 0 {
            let sub = bytes::word32(d, next, be);
            lemma_directory_complete(d, sub, be, mid, depth + 1);
            lemma_complete_stays(d, be, w, mid, directory(d, sub, be, mid, depth + 1));
        }
    }
}

proof fn lemma_entries_complete(
    d: Seq<u8>,
    offset: int,
    be: bool,
    w: Walk,
    depth: int,
    i: int,
    count: int,
)
    requires
        0 <= depth <= IFD_DEPTH_LIMIT,
        0 <= i,
    ensures
        goes_on(w, entries(d, offset, be, w, depth, i, count).0),
        all_complete(d, be, w, entries(d, offset, be, w, depth, i, count).0),
        forall|k: int, j: int|
            i <= k < count && offset + 2 + k * 12 + 12 <= d.len() && bytes::word16(
                d,
                offset + 2 + k * 12,
                be,
            ) != 0x8769 && bytes::word16(d, offset + 2 + k * 12, be) != 0x8825 && 0 <= j
                < entry_tags(d, offset + 2 + k * 12, be, depth).len() ==> entries(
                d,
                offset,
                be,
                w,
                depth,
                i,
                count,
            ).0.tags.contains(#[trigger] entry_tags(d, offset + 2 + k * 12, be, depth)[j]),
        forall|k: int|
            i <= k < count && offset + 2 + k * 12 + 12 <= d.len() && (bytes::word16(
                d,
                offset + 2 + k * 12,
                be,
            ) == 0x8769 || bytes::word16(d, offset + 2 + k * 12, be) == 0x8825) && depth
                < IFD_DEPTH_LIMIT && #[trigger] bytes::word32(d, offset + 2 + k * 12 + 8, be) + 2
                <= d.len() ==> entries(d, offset, be, w, depth, i, count).0.seen.contains(
                bytes::word32(d, offset + 2 + k * 12 + 8, be),
            ),
    decreases 5 - depth, 0int, count - i,
{
    let at = offset + 2 + i * 12;
    if i < count && at + 12 <= d.len() {
        let tag = bytes::word16(d, at, be) as u16;
        lemma_numbers(d, at, be);
        let nested = tag == 0x8769 || tag == 0x8825;
        let sub = bytes::word32(d, at + 8, be);
        let mid = if nested {
            directory(d, sub, be, w, depth + 1)
        } else {
            Walk { tags: w.tags + entry_tags(d, at, be, depth), seen: w.seen }
        };
        if nested {
            lemma_directory_complete(d, sub, be, w, depth + 1);
        } else {
            let own = entry_tags(d, at, be, depth);
            assert forall|t: TagText| #[trigger] w.tags.contains(t) implies mid.tags.contains(t) by {
                let k = choose|k: int| 0 <= k < w.tags.len() && w.tags[k] == t;
                assert(mid.tags[k] == t);
            }
            assert forall|j: int| 0 <= j < own.len() implies mid.tags.contains(
                #[trigger] own[j],
            ) by {
                assert(mid.tags[w.tags.len() + j] == own[j]);
            }
        }
        lemma_entries_complete(d, offset, be, mid, depth, i + 1, count);
        let after = entries(d, offset, be, mid, depth, i + 1, count).0;
        assert(entries(d, offset, be, w, depth, i, count) == entries(
            d,
            offset,
            be,
            mid,
            depth,
            i + 1,
            count,
        ));
        lemma_complete_stays(d, be, w, mid, after);
        assert forall|k: int, j: int|
            i <= k < count && offset + 2 + k * 12 + 12 <= d.len() && bytes::word16(
                d,
                offset + 2 + k * 12,
                be,
            ) != 0x8769 && bytes::word16(d, offset + 2 + k * 12, be) != 0x8825 && 0 <= j
                < entry_tags(d, offset + 2 + k * 12, be, depth).len() implies after.tags.contains(
            #[trigger] entry_tags(d, offset + 2 + k * 12, be, depth)[j],
        ) by {
            if k == i {
                assert(mid.tags.contains(entry_tags(d, at, be, depth)[j]));
            }
        }
    }
}

/// The names of the entries that are shown, by their numbers: those of a place stand only in
/// a directory below the main one.
pub open spec fn goes_by(number: int, below: bool, name: Seq<char>) -> bool {
    ||| below && number == 1 && name == "GPS: широта (полушарие)"@
    ||| below && number == 2 && name == "GPS: широта"@
    ||| below && number == 3 && name == "GPS: долгота (полушарие)"@
    ||| below && number == 4 && name == "GPS: долгота"@
    ||| below && number == 6 && name == "GPS: высота"@
    ||| below && number == 7 && name == "GPS: время съёмки (UTC)"@
    ||| below && number == 29 && name == "GPS: дата"@
    ||| number == 270 && name == "Описание"@
    ||| number == 271 && name == "Производитель"@
    ||| number == 272 && name == "Модель камеры"@
    ||| number == 274 && name == "Ориентация"@
    ||| number == 305 && name == "Программа"@
    ||| number == 306 && name == "Дата изменения"@
    ||| number == 315 && name == "Автор"@
    ||| number == 33432 && name == "Авторские права"@
    ||| number == 33434 && name == "Выдержка"@
    ||| number == 33437 && name == "Диафрагма"@
    ||| number == 34855 && name == "ISO"@
    ||| number == 36867 && name == "Дата съёмки"@
    ||| number == 36868 && name == "Дата оцифровки"@
    ||| number == 37386 && name == "Фокусное расстояние"@
    ||| number == 40962 && name == "Ширина"@
    ||| number == 40963 && name == "Высота"@
    ||| number == 42032 && name == "Владелец камеры"@
    ||| number == 42035 && name == "Производитель объектива"@
    ||| number == 42036 && name == "Модель объектива"@
    ||| number == 42037 && name == "Серийный номер объектива"@
    ||| number == 50735 && name == "Серийный номер камеры"@
}

/// The line that is shown of the entry at `at`, where it goes by `name` and its value is there.
pub open spec fn shown_entry(
    d: Seq<u8>,
    at: int,
    high_first: bool,
    name: Seq<char>,
    size: int,
    count: int,
    start: int,
) -> TagText {
    TagText {
        name,
        value: shown_value(d, pair(d, at + 2, high_first), high_first, size, count, start),
    }
}

proof fn lemma_entry_shown(
    d: Seq<u8>,
    at: int,
    be: bool,
    depth: int,
    name: Seq<char>,
    size: int,
    count: int,
    start: int,
)
    requires
        0 <= at,
        at + 12 <= d.len(),
        goes_by(pair(d, at, be), depth > 0, name),
        holds_value(d, at, be, size, count, start),
    ensures
        entry_tags(d, at, be, depth) == seq![shown_entry(d, at, be, name, size, count, start)],
        bytes::word16(d, at, be) != 0x8769 && bytes::word16(d, at, be) != 0x8825,
{
    lemma_numbers(d, at, be);
    lemma_numbers(d, at + 2, be);
    lemma_numbers(d, at + 4, be);
    value_in_the_block_is_shown(d, at, be, size, count, start);
    assert(label(pair(d, at, be) as u16, depth > 0) == Some(name));
}

/// What the walk begins with, and what it leaves of the main directory.
proof fn lemma_main_directory(d: Seq<u8>, be: bool)
    requires
        is_block(d, be),
        quad(d, 4, be) + 2 <= d.len(),
    ensures
        ({
            let dir = quad(d, 4, be);
            let w = Walk { tags: Seq::empty(), seen: seq![dir] };
            let mid = entries(d, dir, be, w, 0, 0, entry_count(d, dir, be)).0;
            let all = directory(d, dir, be, Walk { tags: Seq::empty(), seen: Seq::empty() }, 0);
            &&& tags(d) == all.tags
            &&& goes_on(mid, all)
            &&& all_complete(d, be, w, all)
        }),
{
    let dir = quad(d, 4, be);
    let none = Walk { tags: Seq::<TagText>::empty(), seen: Seq::<int>::empty() };
    let w = Walk { tags: Seq::empty(), seen: seq![dir] };
    lemma_numbers(d, 2, be);
    lemma_numbers(d, 4, be);
    assert(endian(d) == Some(be));
    assert(none.seen.push(dir) =~= seq![dir]);
    let count = entry_count(d, dir, be);
    let (mid, whole) = entries(d, dir, be, w, 0, 0, count);
    lemma_entries_complete(d, dir, be, w, 0, 0, count);
    let next = dir + 2 + count * 12;
    if whole && next + 4 <= d.len() && bytes::word32(d, next, be) != 0 {
        let sub = bytes::word32(d, next, be);
        lemma_directory_complete(d, sub, be, mid, 1);
        lemma_complete_stays(d, be, w, mid, directory(d, sub, be, mid, 1));
    }
}

/// Every entry of the main directory that has a name and a readable value is shown, under that
/// name and with that value.
pub proof fn main_directory_is_shown(
    d: Seq<u8>,
    high_first: bool,
    k: int,
    at: int,
    name: Seq<char>,
    size: int,
    count: int,
    start: int,
)
    requires
        is_block(d, high_first),
        is_entry(d, quad(d, 4, high_first), k, at, high_first),
        goes_by(pair(d, at, high_first), false, name),
        holds_value(d, at, high_first, size, count, start),
    ensures
        tags(d).contains(shown_entry(d, at, high_first, name, size, count, start)),
{
    let be = high_first;
    let dir = quad(d, 4, be);
    let w = Walk { tags: Seq::empty(), seen: seq![dir] };
    lemma_numbers(d, dir, be);
    lemma_main_directory(d, be);
    lemma_entries_complete(d, dir, be, w, 0, 0, entry_count(d, dir, be));
    assert(at == dir + 2 + k * 12);
    lemma_entry_shown(d, at, be, 0, name, size, count, start);
    let own = entry_tags(d, dir + 2 + k * 12, be, 0);
    assert(own[0] == shown_entry(d, at, be, name, size, count, start));
}

proof fn lemma_below_is_shown(
    d: Seq<u8>,
    be: bool,
    dir: int,
    k: int,
    at: int,
    name: Seq<char>,
    size: int,
    count: int,
    start: int,
    gathered: Seq<TagText>,
)
    requires
        is_entry(d, dir, k, at, be),
        goes_by(pair(d, at, be), true, name),
        holds_value(d, at, be, size, count, start),
        complete(d, dir, be, gathered, 1),
    ensures
        gathered.contains(shown_entry(d, at, be, name, size, count, start)),
{
    lemma_numbers(d, dir, be);
    assert(at == dir + 2 + k * 12);
    lemma_entry_shown(d, at, be, 1, name, size, count, start);
    let own = entry_tags(d, dir + 2 + k * 12, be, 1);
    assert(own[0] == shown_entry(d, at, be, name, size, count, start));
}

/// Every entry of a directory that the main one points to is shown, under its name and with its
/// value. The directory of a place is pointed to by entry 0x8825, that of the picture's taking
/// by entry 0x8769.
pub proof fn directory_below_is_shown(
    d: Seq<u8>,
    high_first: bool,
    pointer: int,
    pointer_at: int,
    k: int,
    at: int,
    name: Seq<char>,
    size: int,
    count: int,
    start: int,
)
    requires
        is_block(d, high_first),
        is_entry(d, quad(d, 4, high_first), pointer, pointer_at, high_first),
        pair(d, pointer_at, high_first) == 0x8825 || pair(d, pointer_at, high_first) == 0x8769,
        quad(d, pointer_at + 8, high_first) != quad(d, 4, high_first),
        is_entry(d, quad(d, pointer_at + 8, high_first), k, at, high_first),
        goes_by(pair(d, at, high_first), true, name),
        holds_value(d, at, high_first, size, count, start),
    ensures
        tags(d).contains(shown_entry(d, at, high_first, name, size, count, start)),
{
    let be = high_first;
    let dir = quad(d, 4, be);
    let below = quad(d, pointer_at + 8, be);
    let w = Walk { tags: Seq::empty(), seen: seq![dir] };
    lemma_numbers(d, dir, be);
    lemma_numbers(d, pointer_at, be);
    lemma_numbers(d, pointer_at + 8, be);
    lemma_main_directory(d, be);
    lemma_entries_complete(d, dir, be, w, 0, 0, entry_count(d, dir, be));
    assert(pointer_at == dir + 2 + pointer * 12);
    let mid = entries(d, dir, be, w, 0, 0, entry_count(d, dir, be)).0;
    assert(mid.seen.contains(bytes::word32(d, dir + 2 + pointer * 12 + 8, be)));
    assert(!w.seen.contains(below));
    lemma_below_is_shown(d, be, below, k, at, name, size, count, start, tags(d));
}

/// Every entry of the directory that follows the main one is shown too.
pub proof fn directory_behind_is_shown(
    d: Seq<u8>,
    high_first: bool,
    k: int,
    at: int,
    name: Seq<char>,
    size: int,
    count: int,
    start: int,
)
    requires
        is_block(d, high_first),
        ({
            let dir = quad(d, 4, high_first);
            let link = dir + 2 + 12 * pair(d, dir, high_first);
            let behind = quad(d, link, high_first);
            &&& pair(d, dir, high_first) <= 512
            &&& link + 4 <= d.len()
            &&& behind != 0 && behind != dir
            &&& is_entry(d, behind, k, at, high_first)
        }),
        goes_by(pair(d, at, high_first), true, name),
        holds_value(d, at, high_first, size, count, start),
    ensures
        tags(d).contains(shown_entry(d, at, high_first, name, size, count, start)),
{
    let be = high_first;
    let dir = quad(d, 4, be);
    let n = pair(d, dir, be);
    let link = dir + 2 + 12 * n;
    let behind = quad(d, link, be);
    let w = Walk { tags: Seq::empty(), seen: seq![dir] };
    lemma_numbers(d, 4, be);
    lemma_numbers(d, dir, be);
    lemma_numbers(d, link, be);
    lemma_main_directory(d, be);
    assert(entry_count(d, dir, be) == n);
    lemma_entries_whole(d, dir, be, w, 0, 0, n);
    let mid = entries(d, dir, be, w, 0, 0, n).0;
    lemma_directory_complete(d, behind, be, mid, 1);
    let none = Walk { tags: Seq::<TagText>::empty(), seen: Seq::<int>::empty() };
    assert(none.seen.push(dir) =~= seq![dir]);
    assert(dir + 2 + n * 12 == link);
    assert(directory(d, dir, be, none, 0) == directory(d, behind, be, mid, 1));
    assert(!w.seen.contains(behind));
    lemma_below_is_shown(d, be, behind, k, at, name, size, count, start, tags(d));
}

/// Entries that are all there are all read.
proof fn lemma_entries_whole(
    d: Seq<u8>,
    offset: int,
    be: bool,
    w: Walk,
    depth: int,
    i: int,
    count: int,
)
    requires
        0 <= depth <= IFD_DEPTH_LIMIT,
        0 <= i <= count,
        offset + 2 + count * 12 <= d.len(),
    ensures
        entries(d, offset, be, w, depth, i, count).1,
    decreases count - i,
{
    if i < count {
        let at = offset + 2 + i * 12;
        let tag = bytes::word16(d, at, be) as u16;
        let mid = if tag == 0x8769 || tag == 0x8825 {
            directory(d, bytes::word32(d, at + 8, be), be, w, depth + 1)
        } else {
            Walk { tags: w.tags + entry_tags(d, at, be, depth), seen: w.seen }
        };
        lemma_entries_whole(d, offset, be, mid, depth, i + 1, count);
    }
}

/// Whether a line of the list says what an entry of the block holds.
pub open spec fn stands_in(d: Seq<u8>, high_first: bool, t: TagText) -> bool {
    exists|at: int, below: bool, size: int, count: int, start: int|
        {
            &&& 0 <= at
            &&& at + 12 <= d.len()
            &&& #[trigger] goes_by(pair(d, at, high_first), below, t.name)
            &&& #[trigger] holds_value(d, at, high_first, size, count, start)
            &&& t == shown_entry(d, at, high_first, t.name, size, count, start)
        }
}

proof fn lemma_entry_stands(d: Seq<u8>, at: int, be: bool, depth: int, i: int)
    requires
        0 <= at,
        at + 12 <= d.len(),
        0 <= i < entry_tags(d, at, be, depth).len(),
    ensures
        stands_in(d, be, entry_tags(d, at, be, depth)[i]),
{
    lemma_numbers(d, at, be);
    lemma_numbers(d, at + 2, be);
    lemma_numbers(d, at + 4, be);
    lemma_numbers(d, at + 8, be);
    let kind = pair(d, at + 2, be);
    let size = unit(kind as u16);
    let count = quad(d, at + 4, be);
    let start = value_start(d, at + 8, size * count, be);
    let t = entry_tags(d, at, be, depth)[i];
    assert(value(d, at + 8, kind as u16, count, be) is Some);
    assert(holds_value(d, at, be, size, count, start));
    assert(goes_by(pair(d, at, be), depth > 0, t.name));
    value_in_the_block_is_shown(d, at, be, size, count, start);
    assert(t == shown_entry(d, at, be, t.name, size, count, start));
}

spec fn all_stand(d: Seq<u8>, be: bool, tags: Seq<TagText>) -> bool {
    forall|i: int| 0 <= i < tags.len() ==> stands_in(d, be, #[trigger] tags[i])
}

proof fn lemma_directory_stands(d: Seq<u8>, offset: int, be: bool, w: Walk, depth: int)
    requires
        0 <= offset,
        all_stand(d, be, w.tags),
    ensures
        all_stand(d, be, directory(d, offset, be, w, depth).tags),
    decreases 5 - depth, 1int, 0int,
{
    if !(depth > IFD_DEPTH_LIMIT || w.seen.contains(offset) || offset + 2 > d.len()) {
        let count = entry_count(d, offset, be);
        let entered = Walk { tags: w.tags, seen: w.seen.push(offset) };
        lemma_entries_stand(d, offset, be, entered, depth, 0, count);
        let (mid, whole) = entries(d, offset, be, entered, depth, 0, count);
        let next = offset + 2 + count * 12;
        lemma_numbers(d, next, be);
        if whole && next + 4 <= d.len() && bytes::word32(d, next, be) != 0 {
            lemma_directory_stands(d, bytes::word32(d, next, be), be, mid, depth + 1);
        }
    }
}

proof fn lemma_entries_stand(
    d: Seq<u8>,
    offset: int,
    be: bool,
    w: Walk,
    depth: int,
    i: int,
    count: int,
)
    requires
        0 <= offset,
        0 <= i,
        depth <= IFD_DEPTH_LIMIT,
        all_stand(d, be, w.tags),
    ensures
        all_stand(d, be, entries(d, offset, be, w, depth, i, count).0.tags),
    decreases 5 - depth, 0int, count - i,
{
    let at = offset + 2 + i * 12;
    if i < count && at + 12 <= d.len() {
        let tag = bytes::word16(d, at, be) as u16;
        let nested = tag == 0x8769 || tag == 0x8825;
        let sub = bytes::word32(d, at + 8, be);
        lemma_numbers(d, at + 8, be);
        let own = entry_tags(d, at, be, depth);
        let mid = if nested {
            directory(d, sub, be, w, depth + 1)
        } else {
            Walk { tags: w.tags + own, seen: w.seen }
        };
        if nested {
            lemma_directory_stands(d, sub, be, w, depth + 1);
        } else {
            assert forall|k: int| 0 <= k < mid.tags.len() implies stands_in(
                d,
                be,
                #[trigger] mid.tags[k],
            ) by {
                if k >= w.tags.len() {
                    lemma_entry_stands(d, at, be, depth, k - w.tags.len());
                }
            }
        }
        lemma_entries_stand(d, offset, be, mid, depth, i + 1, count);
    }
}

/// Nothing is made up: every line of the list is what some entry of the block holds, and bytes
/// that begin as no TIFF does give no line.
pub proof fn nothing_is_made_up(d: Seq<u8>)
    ensures
        forall|i: int|
            0 <= i < tags(d).len() ==> {
                ||| is_block(d, true) && stands_in(d, true, #[trigger] tags(d)[i])
                ||| is_block(d, false) && stands_in(d, false, tags(d)[i])
            },
{
    if let Some(be) = endian(d) {
        lemma_numbers(d, 4, be);
        lemma_directory_stands(
            d,
            bytes::word32(d, 4, be),
            be,
            Walk { tags: Seq::empty(), seen: Seq::empty() },
            0,
        );
    }
}

/// Whether the entry at `at` of a main directory is shown as a line.
pub open spec fn is_line_of(d: Seq<u8>, at: int, high_first: bool, t: TagText) -> bool {
    exists|size: int, count: int, start: int|
        {
            &&& goes_by(pair(d, at, high_first), false, t.name)
            &&& #[trigger] holds_value(d, at, high_first, size, count, start)
            &&& t == shown_entry(d, at, high_first, t.name, size, count, start)
        }
}

/// The lines of the first `k` entries of a main directory, in their order: one for each that has
/// a name and a readable value.
pub open spec fn lines_of_entries(d: Seq<u8>, dir: int, k: int, high_first: bool) -> Seq<TagText>
    decreases k,
{
    if k <= 0 {
        Seq::empty()
    } else {
        let before = lines_of_entries(d, dir, k - 1, high_first);
        let at = dir + 2 + 12 * (k - 1);
        if exists|t: TagText| is_line_of(d, at, high_first, t) {
            before.push(choose|t: TagText| is_line_of(d, at, high_first, t))
        } else {
            before
        }
    }
}

proof fn lemma_entry_is_its_line(d: Seq<u8>, at: int, be: bool)
    requires
        0 <= at,
        at + 12 <= d.len(),
    ensures
        entry_tags(d, at, be, 0) == (if exists|t: TagText| is_line_of(d, at, be, t) {
            seq![choose|t: TagText| is_line_of(d, at, be, t)]
        } else {
            Seq::empty()
        }),
{
    if exists|t: TagText| is_line_of(d, at, be, t) {
        let t = choose|t: TagText| is_line_of(d, at, be, t);
        let (size, count, start) = choose|size: int, count: int, start: int|
            {
                &&& goes_by(pair(d, at, be), false, t.name)
                &&& #[trigger] holds_value(d, at, be, size, count, start)
                &&& t == shown_entry(d, at, be, t.name, size, count, start)
            };
        lemma_entry_shown(d, at, be, 0, t.name, size, count, start);
    } else {
        let own = entry_tags(d, at, be, 0);
        if own.len() > 0 {
            lemma_numbers(d, at, be);
            lemma_numbers(d, at + 2, be);
            lemma_numbers(d, at + 4, be);
            lemma_numbers(d, at + 8, be);
            let kind = pair(d, at + 2, be);
            let size = unit(kind as u16);
            let count = quad(d, at + 4, be);
            let start = value_start(d, at + 8, size * count, be);
            let t = own[0];
            assert(value(d, at + 8, kind as u16, count, be) is Some);
            assert(holds_value(d, at, be, size, count, start));
            assert(goes_by(pair(d, at, be), false, t.name));
            value_in_the_block_is_shown(d, at, be, size, count, start);
            assert(is_line_of(d, at, be, t));
        }
        assert(own =~= Seq::empty());
    }
}

proof fn lemma_plain_entries(d: Seq<u8>, dir: int, be: bool, w: Walk, i: int, n: int)
    requires
        0 <= dir,
        0 <= i <= n,
        dir + 2 + 12 * n <= d.len(),
        w.tags == lines_of_entries(d, dir, i, be),
        forall|k: int|
            0 <= k < n ==> #[trigger] pair(d, dir + 2 + 12 * k, be) != 0x8769 && pair(
                d,
                dir + 2 + 12 * k,
                be,
            ) != 0x8825,
    ensures
        entries(d, dir, be, w, 0, i, n) == (
            Walk { tags: lines_of_entries(d, dir, n, be), seen: w.seen },
            true,
        ),
    decreases n - i,
{
    if i < n {
        let at = dir + 2 + i * 12;
        assert(at == dir + 2 + 12 * i);
        assert(pair(d, dir + 2 + 12 * i, be) != 0x8769);
        lemma_numbers(d, at, be);
        lemma_entry_is_its_line(d, at, be);
        let next = Walk { tags: w.tags + entry_tags(d, at, be, 0), seen: w.seen };
        assert(next.tags =~= lines_of_entries(d, dir, i + 1, be)) by {
            assert(dir + 2 + 12 * ((i + 1) - 1) == at);
        }
        lemma_plain_entries(d, dir, be, next, i + 1, n);
    }
}

/// A block of one directory is read in the order of its entries: each that has a name and a
/// readable value gives one line, and nothing else does.
pub proof fn block_of_one_directory_is_read_in_order(d: Seq<u8>, high_first: bool)
    requires
        is_block(d, high_first),
        ({
            let dir = quad(d, 4, high_first);
            let n = pair(d, dir, high_first);
            let link = dir + 2 + 12 * n;
            &&& n <= 512
            &&& link <= d.len()
            &&& link + 4 <= d.len() ==> quad(d, link, high_first) == 0
            &&& forall|k: int|
                0 <= k < n ==> #[trigger] pair(d, dir + 2 + 12 * k, high_first) != 0x8769 && pair(
                    d,
                    dir + 2 + 12 * k,
                    high_first,
                ) != 0x8825
        }),
    ensures
        tags(d) == lines_of_entries(
            d,
            quad(d, 4, high_first),
            pair(d, quad(d, 4, high_first), high_first),
            high_first,
        ),
{
    let be = high_first;
    let dir = quad(d, 4, be);
    let n = pair(d, dir, be);
    let link = dir + 2 + 12 * n;
    lemma_numbers(d, 2, be);
    lemma_numbers(d, 4, be);
    lemma_numbers(d, dir, be);
    lemma_numbers(d, link, be);
    assert(endian(d) == Some(be));
    assert(entry_count(d, dir, be) == n);
    let none = Walk { tags: Seq::<TagText>::empty(), seen: Seq::<int>::empty() };
    let w = Walk { tags: none.tags, seen: none.seen.push(dir) };
    lemma_plain_entries(d, dir, be, w, 0, n);
    assert(dir + 2 + n * 12 == link);
}

/// The directory that steps lead to, each by a pointer of the directory before it.
pub open spec fn led_to(d: Seq<u8>, dir: int, steps: Seq<int>, high_first: bool) -> int
    decreases steps.len(),
{
    if steps.len() == 0 {
        dir
    } else {
        led_to(
            d,
            quad(d, dir + 2 + 12 * steps[0] + 8, high_first),
            steps.skip(1),
            high_first,
        )
    }
}

/// Whether each step is the first pointer of its directory, and no directory on the way is one
/// of those passed before.
pub open spec fn is_way(
    d: Seq<u8>,
    dir: int,
    steps: Seq<int>,
    passed: Seq<int>,
    high_first: bool,
) -> bool
    decreases steps.len(),
{
    &&& 0 <= dir && dir + 2 <= d.len()
    &&& !passed.contains(dir)
    &&& steps.len() > 0 ==> {
        let at = dir + 2 + 12 * steps[0];
        &&& is_entry(d, dir, steps[0], at, high_first)
        &&& pair(d, at, high_first) == 0x8825 || pair(d, at, high_first) == 0x8769
        &&& forall|k: int|
            0 <= k < steps[0] ==> #[trigger] pair(d, dir + 2 + 12 * k, high_first) != 0x8825 && pair(
                d,
                dir + 2 + 12 * k,
                high_first,
            ) != 0x8769
        &&& is_way(
            d,
            quad(d, at + 8, high_first),
            steps.skip(1),
            passed.push(dir),
            high_first,
        )
    }
}

proof fn lemma_way_is_gone(d: Seq<u8>, dir: int, be: bool, w: Walk, depth: int, steps: Seq<int>)
    requires
        0 <= depth,
        depth + steps.len() <= 4,
        is_way(d, dir, steps, w.seen, be),
    ensures
        directory(d, dir, be, w, depth).seen.contains(led_to(d, dir, steps, be)),
    decreases steps.len(), 1int, 0int,
{
    lemma_numbers(d, dir, be);
    let count = entry_count(d, dir, be);
    let entered = Walk { tags: w.tags, seen: w.seen.push(dir) };
    let (mid, whole) = entries(d, dir, be, entered, depth, 0, count);
    let next = dir + 2 + count * 12;
    let all = directory(d, dir, be, w, depth);
    lemma_entries_complete(d, dir, be, entered, depth, 0, count);
    if whole && next + 4 <= d.len() && bytes::word32(d, next, be) != 0 {
        lemma_directory_complete(d, bytes::word32(d, next, be), be, mid, depth + 1);
    }
    assert(goes_on(mid, all));
    if steps.len() == 0 {
        assert(entered.seen[w.seen.len() as int] == dir);
        assert(entered.seen.contains(dir));
    } else {
        let p = steps[0];
        lemma_step_is_gone(d, dir, be, entered, depth, steps, 0, count);
        assert(p < count);
    }
}

proof fn lemma_step_is_gone(
    d: Seq<u8>,
    dir: int,
    be: bool,
    w: Walk,
    depth: int,
    steps: Seq<int>,
    i: int,
    count: int,
)
    requires
        0 <= depth,
        depth + steps.len() <= 4,
        steps.len() > 0,
        0 <= dir,
        0 <= i <= steps[0] < count,
        dir + 2 + 12 * steps[0] + 12 <= d.len(),
        pair(d, dir + 2 + 12 * steps[0], be) == 0x8825 || pair(d, dir + 2 + 12 * steps[0], be)
            == 0x8769,
        forall|k: int|
            0 <= k < steps[0] ==> #[trigger] pair(d, dir + 2 + 12 * k, be) != 0x8825 && pair(
                d,
                dir + 2 + 12 * k,
                be,
            ) != 0x8769,
        is_way(d, quad(d, dir + 2 + 12 * steps[0] + 8, be), steps.skip(1), w.seen, be),
    ensures
        entries(d, dir, be, w, depth, i, count).0.seen.contains(led_to(d, dir, steps, be)),
    decreases steps.len(), 0int, steps[0] - i,
{
    let at = dir + 2 + i * 12;
    assert(at == dir + 2 + 12 * i);
    lemma_numbers(d, at, be);
    lemma_numbers(d, at + 8, be);
    if i < steps[0] {
        assert(pair(d, dir + 2 + 12 * i, be) != 0x8825);
        let mid = Walk { tags: w.tags + entry_tags(d, at, be, depth), seen: w.seen };
        lemma_step_is_gone(d, dir, be, mid, depth, steps, i + 1, count);
    } else {
        let sub = quad(d, at + 8, be);
        let mid = directory(d, sub, be, w, depth + 1);
        lemma_way_is_gone(d, sub, be, w, depth + 1, steps.skip(1));
        lemma_entries_complete(d, dir, be, mid, depth, i + 1, count);
    }
}

/// Directories are followed down to the fourth below the main one: every entry of a directory
/// that first pointers lead to is shown.
pub proof fn deep_directory_is_shown(
    d: Seq<u8>,
    high_first: bool,
    steps: Seq<int>,
    k: int,
    at: int,
    name: Seq<char>,
    size: int,
    count: int,
    start: int,
)
    requires
        is_block(d, high_first),
        0 < steps.len() <= 4,
        is_way(d, quad(d, 4, high_first), steps, Seq::empty(), high_first),
        led_to(d, quad(d, 4, high_first), steps, high_first) != quad(d, 4, high_first),
        is_entry(d, led_to(d, quad(d, 4, high_first), steps, high_first), k, at, high_first),
        goes_by(pair(d, at, high_first), true, name),
        holds_value(d, at, high_first, size, count, start),
    ensures
        tags(d).contains(shown_entry(d, at, high_first, name, size, count, start)),
{
    let be = high_first;
    let dir = quad(d, 4, be);
    let below = led_to(d, dir, steps, be);
    let none = Walk { tags: Seq::<TagText>::empty(), seen: Seq::<int>::empty() };
    let w = Walk { tags: Seq::empty(), seen: seq![dir] };
    lemma_main_directory(d, be);
    lemma_way_is_gone(d, dir, be, none, 0, steps);
    assert(!w.seen.contains(below));
    lemma_below_is_shown(d, be, below, k, at, name, size, count, start, tags(d));
}

} // verus!
