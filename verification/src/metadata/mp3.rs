//! MP3: tags stand in front of the sound and behind it, never in between.
use crate::bytes;
use crate::metadata::tag;
use crate::metadata::tag::{Tag, TagText};
use crate::text;
use vstd::prelude::*;
use vstd::slice::slice_subrange;

verus! {

/// How many bytes at the end of a file are looked at.
pub const MP3_TAIL_WINDOW: u64 = 512;

/// How many bytes at the start of a file are looked at.
pub const MP3_HEAD: usize = 10;

/// "ID3", which begins a tag in front of the sound.
pub const ID3: [u8; 3] = [0x49, 0x44, 0x33];

/// "TAG", which begins the last 128 bytes of a file with an old tag.
pub const TAG: [u8; 3] = [0x54, 0x41, 0x47];

/// "TAG+", which begins the 227 bytes of an extended old tag.
pub const TAG_PLUS: [u8; 4] = [0x54, 0x41, 0x47, 0x2B];

/// "APETAGEX", which begins the 32 bytes that close an APE tag.
pub const APE: [u8; 8] = [0x41, 0x50, 0x45, 0x54, 0x41, 0x47, 0x45, 0x58];

/// Where the sound of a file lies; all the rest is tags.
#[derive(Debug, Clone, Copy)]
pub struct Mp3Bounds {
    pub start: usize,
    pub end: usize,
}

/// The length of the tag in front of the sound. Its size field holds seven bits a byte; a
/// size with any higher bit set is not to be trusted, and counts as no tag.
pub open spec fn front_len(head: Seq<u8>) -> int {
    if head.len() >= 10 && bytes::has_at(head, 0, ID3@) && head[6] < 0x80 && head[7] < 0x80
        && head[8] < 0x80 && head[9] < 0x80 {
        10 + head[6] * 0x20_0000 + head[7] * 0x4000 + head[8] * 0x80 + head[9] + (if head[5] / 16
            % 2 == 1 {
            10int
        } else {
            0
        })
    } else {
        0
    }
}

/// Where position `at` of a file of `size` bytes lies in the window `tail` at its end, if
/// `len` bytes from there on are in the window.
pub open spec fn in_window(tail: Seq<u8>, size: int, at: int, len: int) -> bool {
    &&& tail.len() <= size
    &&& size - tail.len() <= at
    &&& at + len <= size
}

/// Whether the file holds `mark` at `at`, as far as the window shows.
pub open spec fn tail_has(tail: Seq<u8>, size: int, at: int, mark: Seq<u8>) -> bool {
    &&& in_window(tail, size, at, mark.len() as int)
    &&& bytes::has_at(tail, at - (size - tail.len()), mark)
}

/// Where the file ends once an old tag before `end` is cut off.
pub open spec fn without_old_tag(tail: Seq<u8>, size: int, end: int) -> int {
    if end >= 128 && tail_has(tail, size, end - 128, TAG@) {
        if end >= 355 && tail_has(tail, size, end - 355, TAG_PLUS@) {
            end - 355
        } else {
            end - 128
        }
    } else {
        end
    }
}

/// The length of the APE tag that is closed right before `end`; zero where there is none.
/// The size that a tag declares does not count its header; a flag tells of that.
pub open spec fn ape_len(tail: Seq<u8>, size: int, end: int) -> int {
    let footer = end - 32 - (size - tail.len());
    if end >= 32 && tail_has(tail, size, end - 32, APE@) && in_window(tail, size, end - 32, 32) {
        bytes::le32(tail, footer + 12) + (if bytes::le32(tail, footer + 20) >= 0x8000_0000 {
            32int
        } else {
            0
        })
    } else {
        0
    }
}

/// Where the file ends once an APE tag before `end` is cut off.
pub open spec fn without_ape(tail: Seq<u8>, size: int, end: int) -> int {
    if ape_len(tail, size, end) <= end {
        end - ape_len(tail, size, end)
    } else {
        end
    }
}

/// Where the file ends once one round of tags before `end` is cut off.
pub open spec fn cut_once(tail: Seq<u8>, size: int, end: int) -> int {
    without_ape(tail, size, without_old_tag(tail, size, end))
}

/// Where the file ends once all tags before `end` are cut off.
pub open spec fn cut_all(tail: Seq<u8>, size: int, end: int) -> int
    decreases end,
{
    let next = cut_once(tail, size, end);
    if 0 <= next < end {
        cut_all(tail, size, next)
    } else {
        end
    }
}

pub open spec fn sound_start(head: Seq<u8>, size: int) -> int {
    if front_len(head) < size {
        front_len(head)
    } else {
        size
    }
}

pub open spec fn sound_end(head: Seq<u8>, tail: Seq<u8>, size: int) -> int {
    if cut_all(tail, size, size) < sound_start(head, size) {
        sound_start(head, size)
    } else {
        cut_all(tail, size, size)
    }
}

proof fn lemma_cut_once(tail: Seq<u8>, size: int, end: int)
    requires
        0 <= end,
    ensures
        0 <= cut_once(tail, size, end) <= end,
{
    let e = without_old_tag(tail, size, end);
    assert(0 <= e <= end);
    assert(0 <= ape_len(tail, size, e));
}

/// Nothing more can be cut off where cutting has stopped.
pub proof fn all_tags_are_cut(tail: Seq<u8>, size: int, end: int)
    requires
        0 <= end,
    ensures
        0 <= cut_all(tail, size, end) <= end,
        cut_once(tail, size, cut_all(tail, size, end)) == cut_all(tail, size, end),
    decreases end,
{
    lemma_cut_once(tail, size, end);
    let next = cut_once(tail, size, end);
    if next < end {
        all_tags_are_cut(tail, size, next);
    }
}

/// The part of the window that stands for `len` bytes of the file from `at` on.
pub fn tail_at(tail: &[u8], size: usize, at: usize, len: usize) -> (r: Option<&[u8]>)
    ensures
        r is Some <==> in_window(tail@, size as int, at as int, len as int),
        r matches Some(part) ==> part@ == tail@.subrange(
            at - (size - tail@.len()),
            at - (size - tail@.len()) + len,
        ),
{
    if tail.len() > size {
        return None;
    }
    let skipped: usize = size - tail.len();
    if at < skipped || !bytes::fits(tail.len(), at - skipped, len) {
        return None;
    }
    let local: usize = at - skipped;
    Some(slice_subrange(tail, local, local + len))
}

fn tail_is(tail: &[u8], size: usize, at: usize, mark: &[u8]) -> (r: bool)
    ensures
        r == tail_has(tail@, size as int, at as int, mark@),
{
    match tail_at(tail, size, at, mark.len()) {
        Some(part) => {
            let ghost local = at - (size - tail@.len());
            assert(part@.subrange(0, mark@.len() as int) =~= tail@.subrange(
                local,
                local + mark@.len(),
            ));
            bytes::matches_at(part, 0, mark)
        },
        None => false,
    }
}

fn ape_tag_len(tail: &[u8], size: usize, end: usize) -> (r: u64)
    ensures
        r == ape_len(tail@, size as int, end as int),
{
    if end < 32 || !tail_is(tail, size, end - 32, APE.as_slice()) {
        return 0;
    }
    match tail_at(tail, size, end - 32, 32) {
        Some(footer) => match (bytes::le_u32(footer, 12), bytes::le_u32(footer, 20)) {
            (Some(declared), Some(flags)) => {
                let ghost local = end - 32 - (size - tail@.len());
                assert(bytes::le32(footer@, 12) == bytes::le32(tail@, local + 12));
                assert(bytes::le32(footer@, 20) == bytes::le32(tail@, local + 20));
                declared as u64 + if flags >= 0x8000_0000 {
                    32
                } else {
                    0
                }
            },
            _ => 0,
        },
        None => 0,
    }
}

fn id3v2_len(head: &[u8]) -> (r: usize)
    ensures
        r == front_len(head@),
{
    if head.len() < 10 || !bytes::matches_at(head, 0, ID3.as_slice()) {
        return 0;
    }
    if head[6] >= 0x80 || head[7] >= 0x80 || head[8] >= 0x80 || head[9] >= 0x80 {
        return 0;
    }
    let declared: usize = head[6] as usize * 0x20_0000 + head[7] as usize * 0x4000 + head[8] as usize
        * 0x80 + head[9] as usize;
    let footer: usize = if head[5] / 16 % 2 == 1 {
        10
    } else {
        0
    };
    10 + declared + footer
}

/// Finds the sound between the tags, from the first ten bytes of a file, the window at its
/// end and its size.
pub fn mp3_bounds(head: &[u8], tail: &[u8], size: usize) -> (r: Mp3Bounds)
    ensures
        r.start == sound_start(head@, size as int),
        r.end == sound_end(head@, tail@, size as int),
        r.start <= r.end <= size,
{
    let front = id3v2_len(head);
    let start: usize = if front < size {
        front
    } else {
        size
    };
    let mut end: usize = size;
    let mut going: bool = true;
    while going
        invariant
            end <= size,
            cut_all(tail@, size as int, size as int) == cut_all(tail@, size as int, end as int),
            !going ==> cut_once(tail@, size as int, end as int) == end,
        decreases end + (if going { 1int } else { 0 }),
    {
        let before = end;
        proof {
            lemma_cut_once(tail@, size as int, end as int);
        }
        if end >= 128 && tail_is(tail, size, end - 128, TAG.as_slice()) {
            end -= 128;
            if end >= 227 && tail_is(tail, size, end - 227, TAG_PLUS.as_slice()) {
                end -= 227;
            }
        }
        let ape = ape_tag_len(tail, size, end);
        if ape <= end as u64 {
            end -= ape as usize;
        }
        going = end != before;
    }
    Mp3Bounds {
        start,
        end: if end < start {
            start
        } else {
            end
        },
    }
}

/// The first bytes of a file.
pub open spec fn head_of(d: Seq<u8>) -> Seq<u8> {
    if d.len() < MP3_HEAD {
        d
    } else {
        d.take(MP3_HEAD as int)
    }
}

/// The window at the end of a file.
pub open spec fn tail_of(d: Seq<u8>) -> Seq<u8> {
    if d.len() < MP3_TAIL_WINDOW {
        d
    } else {
        d.skip(d.len() - MP3_TAIL_WINDOW)
    }
}

/// The sound of a whole file.
pub open spec fn sound(d: Seq<u8>) -> Seq<u8> {
    d.subrange(
        sound_start(head_of(d), d.len() as int),
        sound_end(head_of(d), tail_of(d), d.len() as int),
    )
}

/// The bounds of the sound in a whole file.
pub fn bounds_of(data: &[u8]) -> (r: Mp3Bounds)
    ensures
        r.start == sound_start(head_of(data@), data@.len() as int),
        r.end == sound_end(head_of(data@), tail_of(data@), data@.len() as int),
        r.start <= r.end <= data@.len(),
{
    let size = data.len();
    let head_end: usize = if size < MP3_HEAD {
        size
    } else {
        MP3_HEAD
    };
    let tail_start: usize = if (size as u64) < MP3_TAIL_WINDOW {
        0
    } else {
        size - MP3_TAIL_WINDOW as usize
    };
    let head = slice_subrange(data, 0, head_end);
    let tail = slice_subrange(data, tail_start, size);
    assert(head@ =~= head_of(data@));
    assert(tail@ =~= tail_of(data@));
    mp3_bounds(head, tail, size)
}

/// The tags of an MP3 file: what the probe told, and how much of the file is tags. Where no
/// probe was at hand but tags are there, that is said too.
pub open spec fn tags(
    head: Seq<u8>,
    tail: Seq<u8>,
    size: int,
    probed: Option<Seq<TagText>>,
) -> Seq<TagText> {
    let tag_bytes = sound_start(head, size) + (size - sound_end(head, tail, size));
    let told = match probed {
        Some(list) => list,
        None => Seq::empty(),
    };
    let volume = tag::said(
        "Объём тегов"@,
        text::decimal(tag_bytes as nat) + " Б (включая обложку, если она есть)"@,
    );
    if tag_bytes <= 0 {
        told
    } else if probed is Some {
        told.push(volume)
    } else {
        told.push(volume).push(
            tag::said(
                "Теги"@,
                "присутствуют, но прочитать их нечем: не найден ffprobe"@,
            ),
        )
    }
}

/// What a probe told, if one was at hand.
pub open spec fn told(probed: Option<Vec<Tag>>) -> Option<Seq<TagText>> {
    match probed {
        Some(list) => Some(tag::texts(list@)),
        None => None,
    }
}

pub fn read_mp3(head: &[u8], tail: &[u8], size: u64, probed: Option<Vec<Tag>>) -> (r: Vec<Tag>)
    requires
        size <= usize::MAX,
    ensures
        tag::texts(r@) == tags(head@, tail@, size as int, told(probed)),
{
    let bounds = mp3_bounds(head, tail, size as usize);
    let tag_bytes: u64 = bounds.start as u64 + (size - bounds.end as u64);
    let silent = probed.is_none();
    let mut out: Vec<Tag> = match probed {
        Some(list) => list,
        None => Vec::new(),
    };
    assert(silent ==> tag::texts(out@) =~= Seq::empty());
    if tag_bytes > 0 {
        let mut volume = text::decimal_text(tag_bytes);
        volume.append(" Б (включая обложку, если она есть)");
        tag::push_tag(&mut out, "Объём тегов", volume);
        if silent {
            tag::push_tag(
                &mut out,
                "Теги",
                "присутствуют, но прочитать их нечем: не найден ffprobe".to_owned(),
            );
        }
    }
    out
}

/// Whether a file shows no tag, neither in front nor behind.
pub open spec fn tagless(d: Seq<u8>) -> bool {
    sound(d).len() == d.len()
}

/// Whether bytes begin with a tag that can be read.
pub open spec fn begins_with_tag(d: Seq<u8>) -> bool {
    front_len(head_of(d)) > 0
}

/// Whether the last bytes carry the mark of an old tag or of an APE tag.
pub open spec fn ends_with_mark(d: Seq<u8>) -> bool {
    ||| d.len() >= 128 && bytes::has_at(d, d.len() - 128, TAG@)
    ||| d.len() >= 32 && bytes::has_at(d, d.len() - 32, APE@)
}

/// Whether the sound of a file ends so near to the end of the file that the window shows all
/// of what could be one more tag: 128 bytes in front of its end.
pub open spec fn end_is_in_view(d: Seq<u8>) -> bool {
    d.len() <= MP3_TAIL_WINDOW || sound_end(head_of(d), tail_of(d), d.len() as int) + (
    MP3_TAIL_WINDOW - 128) >= d.len()
}

/// The window at the end of a file shows the bytes of the file.
proof fn lemma_window(d: Seq<u8>, at: int, mark: Seq<u8>)
    requires
        0 <= at,
        d.len() - tail_of(d).len() <= at,
        at + mark.len() <= d.len(),
    ensures
        tail_has(tail_of(d), d.len() as int, at, mark) == bytes::has_at(d, at, mark),
{
    let skipped = d.len() - tail_of(d).len();
    assert(tail_of(d).subrange(at - skipped, at - skipped + mark.len()) =~= d.subrange(
        at,
        at + mark.len(),
    ));
}

/// Nothing is cut off the end of bytes without a mark there.
proof fn lemma_no_mark_no_cut(d: Seq<u8>)
    requires
        !ends_with_mark(d),
    ensures
        cut_once(tail_of(d), d.len() as int, d.len() as int) == d.len(),
{
    let n = d.len() as int;
    if n >= 128 {
        lemma_window(d, n - 128, TAG@);
    }
    if n >= 32 {
        lemma_window(d, n - 32, APE@);
    }
}

/// A mark that the window shows of a file it shows of a piece of it too.
proof fn lemma_mark_in_piece(d: Seq<u8>, start: int, end: int, back: int, mark: Seq<u8>)
    requires
        0 <= start <= end <= d.len(),
        mark.len() <= back <= end - start,
        back <= MP3_TAIL_WINDOW,
        d.len() - tail_of(d).len() <= end - back,
    ensures
        ({
            let s = d.subrange(start, end);
            let m = end - start;
            tail_has(tail_of(s), m, m - back, mark) == tail_has(
                tail_of(d),
                d.len() as int,
                end - back,
                mark,
            )
        }),
{
    let s = d.subrange(start, end);
    let m = end - start;
    lemma_window(d, end - back, mark);
    lemma_window(s, m - back, mark);
    assert(s.subrange(m - back, m - back + mark.len()) =~= d.subrange(
        end - back,
        end - back + mark.len(),
    ));
}

/// An APE tag that the window shows of a file is as long in a piece of it.
proof fn lemma_ape_in_piece(d: Seq<u8>, start: int, end: int)
    requires
        0 <= start <= end <= d.len(),
        32 <= end - start,
        d.len() - tail_of(d).len() <= end - 32,
    ensures
        ape_len(tail_of(d.subrange(start, end)), end - start, end - start) == ape_len(
            tail_of(d),
            d.len() as int,
            end,
        ),
{
    let s = d.subrange(start, end);
    let m = end - start;
    lemma_mark_in_piece(d, start, end, 32, APE@);
    let here = m - 32 - (m - tail_of(s).len());
    let there = end - 32 - (d.len() - tail_of(d).len());
    let footer = tail_of(s).subrange(here, here + 32);
    assert(footer =~= tail_of(d).subrange(there, there + 32));
    assert forall|k: int| 0 <= k < 32 implies tail_of(s)[here + k] == #[trigger] footer[k]
        && tail_of(d)[there + k] == footer[k] by {}
    assert(tail_of(s)[here + 12] == footer[12] && tail_of(s)[here + 13] == footer[13]);
    assert(tail_of(s)[here + 14] == footer[14] && tail_of(s)[here + 15] == footer[15]);
    assert(tail_of(s)[here + 20] == footer[20] && tail_of(s)[here + 21] == footer[21]);
    assert(tail_of(s)[here + 22] == footer[22] && tail_of(s)[here + 23] == footer[23]);
}

/// What the window showed of a file it shows of its sound too, and no more is cut off there.
proof fn lemma_sound_ends_plainly(d: Seq<u8>)
    requires
        end_is_in_view(d),
    ensures
        cut_once(tail_of(sound(d)), sound(d).len() as int, sound(d).len() as int) == sound(d).len(),
{
    let n = d.len() as int;
    let start = sound_start(head_of(d), n);
    let end = sound_end(head_of(d), tail_of(d), n);
    let m = end - start;
    all_tags_are_cut(tail_of(d), n, n);
    if m > 0 {
        assert(cut_once(tail_of(d), n, end) == end);
        assert(without_old_tag(tail_of(d), n, end) == end) by {
            lemma_cut_once(tail_of(d), n, without_old_tag(tail_of(d), n, end));
        }
        assert(without_old_tag(tail_of(sound(d)), m, m) == m) by {
            if m >= 128 {
                lemma_mark_in_piece(d, start, end, 128, TAG@);
            }
        }
        if m >= 32 {
            lemma_ape_in_piece(d, start, end);
        }
    }
}

/// The sound of a file shows no tag, unless a second tag stood behind the one in front, or a
/// tag at the end lay out of view. One tag is taken in front, and behind as many as the window
/// shows.
pub proof fn sound_shows_no_tag(d: Seq<u8>)
    requires
        !begins_with_tag(sound(d)),
        end_is_in_view(d) || !ends_with_mark(sound(d)),
    ensures
        tagless(sound(d)),
{
    let s = sound(d);
    if end_is_in_view(d) {
        lemma_sound_ends_plainly(d);
    } else {
        lemma_no_mark_no_cut(s);
    }
}

/// A file without tags is left alone, and a reader has nothing to show of it.
pub proof fn file_without_tags_is_left_alone(d: Seq<u8>)
    requires
        tagless(d),
    ensures
        sound(d) == d,
        tags(head_of(d), tail_of(d), d.len() as int, None) == Seq::<TagText>::empty(),
{
    all_tags_are_cut(tail_of(d), d.len() as int, d.len() as int);
    assert(sound(d) =~= d);
}

/// Cleaning takes away what stands in front of the sound and behind it, and nothing else:
/// the file is its front tags, its sound and its back tags.
pub proof fn cleaning_cuts_only_the_ends(d: Seq<u8>)
    ensures
        d == d.take(sound_start(head_of(d), d.len() as int)) + sound(d) + d.skip(
            sound_end(head_of(d), tail_of(d), d.len() as int),
        ),
{
    all_tags_are_cut(tail_of(d), d.len() as int, d.len() as int);
    assert(d =~= d.take(sound_start(head_of(d), d.len() as int)) + sound(d) + d.skip(
        sound_end(head_of(d), tail_of(d), d.len() as int),
    ));
}

/// Whether bytes are a tag in front of the sound as it is written: "ID3", a version, flags, a
/// size `n` in four bytes of seven bits, and so many bytes. A flag tells of ten more bytes.
pub open spec fn is_front_tag(t: Seq<u8>, n: int) -> bool {
    &&& 0 <= n < 268435456
    &&& t.len() == n + (if t[5] & 0x10 != 0 {
        20int
    } else {
        10
    })
    &&& t[0] == 73 && t[1] == 68 && t[2] == 51
    &&& t[6] == n / 2097152
    &&& t[7] == n / 16384 % 128
    &&& t[8] == n / 128 % 128
    &&& t[9] == n % 128
}

/// Whether bytes are an old tag: "TAG" and 125 more, or the same behind "TAG+" and 223 more.
pub open spec fn is_old_tag(t: Seq<u8>) -> bool {
    ||| t.len() == 128 && t[0] == 84 && t[1] == 65 && t[2] == 71
    ||| t.len() == 355 && t[0] == 84 && t[1] == 65 && t[2] == 71 && t[3] == 43 && t[227] == 84
        && t[228] == 65 && t[229] == 71
}

/// Whether bytes are an APE tag: its last 32 are "APETAGEX", a version, the size of all but a
/// header, lowest byte first, a count and flags, whose highest bit tells of a header of 32
/// bytes.
pub open spec fn is_ape_tag(t: Seq<u8>) -> bool {
    let f = t.len() - 32;
    &&& f >= 0
    &&& t[f] == 65 && t[f + 1] == 80 && t[f + 2] == 69 && t[f + 3] == 84 && t[f + 4] == 65 && t[f
        + 5] == 71 && t[f + 6] == 69 && t[f + 7] == 88
    &&& t.len() == t[f + 12] + 256 * t[f + 13] + 65536 * t[f + 14] + 16777216 * t[f + 15] + (if t[f
        + 23] >= 128 {
        32int
    } else {
        0
    })
}

/// Whether "TAG" stands at `at`.
pub open spec fn says_tag(d: Seq<u8>, at: int) -> bool {
    0 <= at && at + 3 <= d.len() && d[at] == 84 && d[at + 1] == 65 && d[at + 2] == 71
}

/// Whether "APETAGEX" stands at `at`.
pub open spec fn says_ape(d: Seq<u8>, at: int) -> bool {
    &&& 0 <= at && at + 8 <= d.len()
    &&& d[at] == 65 && d[at + 1] == 80 && d[at + 2] == 69 && d[at + 3] == 84 && d[at + 4] == 65
        && d[at + 5] == 71 && d[at + 6] == 69 && d[at + 7] == 88
}

/// Whether a file is put together from these: each of the tags may be missing, and the sound
/// by itself neither begins nor ends as a tag does.
pub open spec fn is_song(
    d: Seq<u8>,
    front: Seq<u8>,
    n: int,
    audio: Seq<u8>,
    ape: Seq<u8>,
    old: Seq<u8>,
) -> bool {
    &&& d == front + audio + ape + old
    &&& front.len() == 0 || is_front_tag(front, n)
    &&& ape.len() == 0 || is_ape_tag(ape)
    &&& old.len() == 0 || is_old_tag(old)
    &&& audio.len() >= 128
    &&& !says_tag(audio, audio.len() - 128)
    &&& !says_ape(audio, audio.len() - 32)
    &&& front.len() == 0 ==> !(audio[0] == 73 && audio[1] == 68 && audio[2] == 51)
    &&& old.len() == 0 ==> !says_tag(d, d.len() - 128)
    &&& old.len() == 128 ==> !(says_tag(d, d.len() - 355) && d[d.len() - 352] == 43)
}

proof fn lemma_marks(d: Seq<u8>, at: int)
    requires
        0 <= at,
    ensures
        at + 3 <= d.len() ==> bytes::has_at(d, at, TAG@) == says_tag(d, at),
        at + 4 <= d.len() ==> bytes::has_at(d, at, TAG_PLUS@) == (says_tag(d, at) && d[at + 3]
            == 43),
        at + 8 <= d.len() ==> bytes::has_at(d, at, APE@) == says_ape(d, at),
        at + 3 <= d.len() ==> bytes::has_at(d, at, ID3@) == (d[at] == 73 && d[at + 1] == 68 && d[at
            + 2] == 51),
{
    if at + 3 <= d.len() {
        let p = d.subrange(at, at + 3);
        assert(p[0] == d[at] && p[1] == d[at + 1] && p[2] == d[at + 2]);
        assert(says_tag(d, at) ==> p =~= TAG@);
        assert(d[at] == 73 && d[at + 1] == 68 && d[at + 2] == 51 ==> p =~= ID3@);
    }
    if at + 4 <= d.len() {
        let p = d.subrange(at, at + 4);
        assert(p[0] == d[at] && p[1] == d[at + 1] && p[2] == d[at + 2] && p[3] == d[at + 3]);
        assert(says_tag(d, at) && d[at + 3] == 43 ==> p =~= TAG_PLUS@);
    }
    if at + 8 <= d.len() {
        let p = d.subrange(at, at + 8);
        assert(p[0] == d[at] && p[1] == d[at + 1] && p[2] == d[at + 2] && p[3] == d[at + 3]);
        assert(p[4] == d[at + 4] && p[5] == d[at + 5] && p[6] == d[at + 6] && p[7] == d[at + 7]);
        assert(says_ape(d, at) ==> p =~= APE@);
    }
}

/// The size of the tag in front is read back from the seven bits a byte that it was written in:
/// the sound starts right behind the tag.
pub proof fn front_tag_is_measured(d: Seq<u8>, front: Seq<u8>, n: int)
    requires
        is_front_tag(front, n),
        front.len() <= d.len(),
        d.take(front.len() as int) == front,
    ensures
        sound_start(head_of(d), d.len() as int) == n + (if d[5] & 0x10 != 0 {
            20int
        } else {
            10
        }),
{
    let head = head_of(d);
    assert forall|k: int| 0 <= k < 10 implies #[trigger] head[k] == front[k] && d[k] == front[k] by {
        assert(d.take(front.len() as int)[k] == front[k]);
    }
    assert(head[0] == front[0] && head[1] == front[1] && head[2] == front[2] && head[5] == front[5]
        && head[6] == front[6] && head[7] == front[7] && head[8] == front[8] && head[9]
        == front[9]);
    lemma_marks(head, 0);
    let f = front[5];
    assert((f & 0x10u8 != 0) == (f / 16u8 % 2u8 == 1u8)) by (bit_vector);
    assert(n / 2097152 * 2097152 + n / 16384 % 128 * 16384 + n / 128 % 128 * 128 + n % 128 == n);
    assert(n / 2097152 < 128);
}

proof fn lemma_song_end(
    d: Seq<u8>,
    front: Seq<u8>,
    n: int,
    audio: Seq<u8>,
    ape: Seq<u8>,
    old: Seq<u8>,
)
    requires
        is_song(d, front, n, audio, ape, old),
    ensures
        cut_all(tail_of(d), d.len() as int, d.len() as int) == front.len() + audio.len(),
{
    let size = d.len() as int;
    let tail = tail_of(d);
    let e: int = (front.len() + audio.len()) as int;
    let e1: int = e + ape.len();
    assert(without_old_tag(tail, size, size) == e1) by {
        lemma_window(d, size - 128, TAG@);
        lemma_marks(d, size - 128);
        if old.len() > 0 {
            assert(d[size - 128] == old[old.len() - 128]);
            assert(d[size - 127] == old[old.len() - 127]);
            assert(d[size - 126] == old[old.len() - 126]);
            if size >= 355 {
                lemma_window(d, size - 355, TAG_PLUS@);
                lemma_marks(d, size - 355);
                if old.len() == 355 {
                    assert(d[size - 355] == old[0] && d[size - 354] == old[1] && d[size - 353]
                        == old[2] && d[size - 352] == old[3]);
                }
            }
        }
    }
    assert(ape_len(tail, size, e1) == ape.len()) by {
        lemma_window(d, e1 - 32, APE@);
        lemma_marks(d, e1 - 32);
        if ape.len() > 0 {
            let f = ape.len() - 32;
            let skipped = size - tail.len();
            let footer = e1 - 32 - skipped;
            assert forall|k: int| 0 <= k < 32 implies #[trigger] d[e1 - 32 + k] == ape[f + k] by {}
            assert(d[e1 - 32 + 0] == ape[f + 0] && d[e1 - 32 + 1] == ape[f + 1] && d[e1 - 32 + 2]
                == ape[f + 2] && d[e1 - 32 + 3] == ape[f + 3]);
            assert(d[e1 - 32 + 4] == ape[f + 4] && d[e1 - 32 + 5] == ape[f + 5] && d[e1 - 32 + 6]
                == ape[f + 6] && d[e1 - 32 + 7] == ape[f + 7]);
            assert forall|k: int| 0 <= k < 32 implies #[trigger] tail[footer + k] == ape[f + k] by {
                assert(tail[footer + k] == d[e1 - 32 + k]);
            }
            assert(tail[footer + 12] == ape[f + 12] && tail[footer + 13] == ape[f + 13]
                && tail[footer + 14] == ape[f + 14] && tail[footer + 15] == ape[f + 15]);
            assert(tail[footer + 20] == ape[f + 20] && tail[footer + 21] == ape[f + 21]
                && tail[footer + 22] == ape[f + 22] && tail[footer + 23] == ape[f + 23]);
        } else {
            let a = audio.len() - 32;
            assert forall|k: int| 0 <= k < 32 implies #[trigger] d[e1 - 32 + k] == audio[a + k] by {}
            assert(d[e1 - 32 + 0] == audio[a + 0] && d[e1 - 32 + 1] == audio[a + 1] && d[e1 - 32
                + 2] == audio[a + 2] && d[e1 - 32 + 3] == audio[a + 3]);
            assert(d[e1 - 32 + 4] == audio[a + 4] && d[e1 - 32 + 5] == audio[a + 5] && d[e1 - 32
                + 6] == audio[a + 6] && d[e1 - 32 + 7] == audio[a + 7]);
        }
    }
    assert(cut_once(tail, size, size) == e);
    assert(cut_once(tail, size, e) == e) by {
        assert(!tail_has(tail, size, e - 128, TAG@)) by {
            if size - tail.len() <= e - 128 {
                lemma_window(d, e - 128, TAG@);
                lemma_marks(d, e - 128);
                let a = audio.len() - 128;
                assert(d[e - 128] == audio[a] && d[e - 127] == audio[a + 1] && d[e - 126] == audio[a
                    + 2]);
            }
        }
        assert(!tail_has(tail, size, e - 32, APE@)) by {
            if size - tail.len() <= e - 32 {
                lemma_window(d, e - 32, APE@);
                lemma_marks(d, e - 32);
                let a = audio.len() - 32;
                assert forall|k: int| 0 <= k < 32 implies #[trigger] d[e - 32 + k] == audio[a
                    + k] by {}
                assert(d[e - 32 + 0] == audio[a + 0] && d[e - 32 + 1] == audio[a + 1] && d[e - 32
                    + 2] == audio[a + 2] && d[e - 32 + 3] == audio[a + 3]);
                assert(d[e - 32 + 4] == audio[a + 4] && d[e - 32 + 5] == audio[a + 5] && d[e - 32
                    + 6] == audio[a + 6] && d[e - 32 + 7] == audio[a + 7]);
            }
        }
    }
    assert(cut_all(tail, size, e) == e);
    if e < size {
        assert(cut_all(tail, size, size) == cut_all(tail, size, e));
    }
}

/// Cleaning takes the tags off both ends of a song, and all of the sound stays.
pub proof fn tags_go_and_the_sound_stays(
    d: Seq<u8>,
    front: Seq<u8>,
    n: int,
    audio: Seq<u8>,
    ape: Seq<u8>,
    old: Seq<u8>,
)
    requires
        is_song(d, front, n, audio, ape, old),
    ensures
        sound_start(head_of(d), d.len() as int) == front.len(),
        sound_end(head_of(d), tail_of(d), d.len() as int) == front.len() + audio.len(),
        sound(d) == audio,
{
    lemma_song_end(d, front, n, audio, ape, old);
    if front.len() > 0 {
        assert(d.take(front.len() as int) =~= front);
        assert(d[5] == front[5]);
        front_tag_is_measured(d, front, n);
    } else {
        assert(d[0] == audio[0] && d[1] == audio[1] && d[2] == audio[2]);
        lemma_marks(head_of(d), 0);
    }
    assert(sound(d) =~= audio);
}

/// Reading tells how many bytes of a song are tags, behind what a probe told; and that there
/// are some, where no probe was at hand.
pub proof fn tags_of_a_song_are_told(
    d: Seq<u8>,
    front: Seq<u8>,
    n: int,
    audio: Seq<u8>,
    ape: Seq<u8>,
    old: Seq<u8>,
    told: Seq<TagText>,
)
    requires
        is_song(d, front, n, audio, ape, old),
    ensures
        ({
            let extra = d.len() - audio.len();
            let volume = TagText {
                name: "Объём тегов"@,
                value: text::decimal(extra as nat) + " Б (включая обложку, если она есть)"@,
            };
            let silent = TagText {
                name: "Теги"@,
                value: "присутствуют, но прочитать их нечем: не найден ffprobe"@,
            };
            let (head, tail, size) = (head_of(d), tail_of(d), d.len() as int);
            &&& extra == 0 ==> tags(head, tail, size, Some(told)) == told && tags(
                head,
                tail,
                size,
                None,
            ) == Seq::<TagText>::empty()
            &&& extra > 0 ==> tags(head, tail, size, Some(told)) == told.push(volume) && tags(
                head,
                tail,
                size,
                None,
            ) == seq![volume, silent]
        }),
{
    tags_go_and_the_sound_stays(d, front, n, audio, ape, old);
    let extra = d.len() - audio.len();
    if extra > 0 {
        assert(tags(head_of(d), tail_of(d), d.len() as int, None) =~= seq![
            TagText {
                name: "Объём тегов"@,
                value: text::decimal(extra as nat) + " Б (включая обложку, если она есть)"@,
            },
            TagText {
                name: "Теги"@,
                value: "присутствуют, но прочитать их нечем: не найден ffprobe"@,
            },
        ]);
    }
}

} // verus!
