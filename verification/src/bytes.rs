//! Integers laid out in a run of bytes.
use vstd::prelude::*;
use vstd::slice::slice_subrange;

verus! {

/// The big-endian 16-bit integer at `at`.
pub open spec fn be16(d: Seq<u8>, at: int) -> int {
    d[at] * 256 + d[at + 1]
}

/// The little-endian 16-bit integer at `at`.
pub open spec fn le16(d: Seq<u8>, at: int) -> int {
    d[at + 1] * 256 + d[at]
}

/// The big-endian 32-bit integer at `at`.
pub open spec fn be32(d: Seq<u8>, at: int) -> int {
    d[at] * 0x100_0000 + d[at + 1] * 0x1_0000 + d[at + 2] * 0x100 + d[at + 3]
}

/// The little-endian 32-bit integer at `at`.
pub open spec fn le32(d: Seq<u8>, at: int) -> int {
    d[at + 3] * 0x100_0000 + d[at + 2] * 0x1_0000 + d[at + 1] * 0x100 + d[at]
}

/// The 16-bit integer at `at` in the byte order that `be` names.
pub open spec fn word16(d: Seq<u8>, at: int, be: bool) -> int {
    if be {
        be16(d, at)
    } else {
        le16(d, at)
    }
}

/// The 32-bit integer at `at` in the byte order that `be` names.
pub open spec fn word32(d: Seq<u8>, at: int, be: bool) -> int {
    if be {
        be32(d, at)
    } else {
        le32(d, at)
    }
}

/// The four bytes of `v`, least significant first.
#[verifier::opaque]
pub open spec fn le32_bytes(v: int) -> Seq<u8> {
    seq![
        (v % 256) as u8,
        (v / 0x100 % 256) as u8,
        (v / 0x1_0000 % 256) as u8,
        (v / 0x100_0000 % 256) as u8,
    ]
}

/// A number is written in four bytes, and is read back from them.
pub proof fn le32_is_read_back(v: int, x: Seq<u8>, at: int)
    requires
        0 <= v < 0x1_0000_0000,
        0 <= at <= at + 4 <= x.len(),
        x.subrange(at, at + 4) == le32_bytes(v),
    ensures
        le32(x, at) == v,
{
    reveal(le32_bytes);
    let b = le32_bytes(v);
    let part = x.subrange(at, at + 4);
    assert(part[0] == x[at] && part[1] == x[at + 1] && part[2] == x[at + 2] && part[3] == x[at
        + 3]);
    assert(b[3] * 0x100_0000 + b[2] * 0x1_0000 + b[1] * 0x100 + b[0] == v);
}

pub proof fn lemma_le32_len(v: int)
    ensures
        le32_bytes(v).len() == 4,
{
    reveal(le32_bytes);
}

/// Whether `n` bytes starting at `at` lie inside a run of `len` bytes.
pub fn fits(len: usize, at: usize, n: usize) -> (r: bool)
    ensures
        r == (at + n <= len),
{
    n <= len && at <= len - n
}

pub fn be_u16(data: &[u8], at: usize) -> (r: Option<u16>)
    ensures
        r is Some <==> at + 2 <= data@.len(),
        r matches Some(v) ==> v == be16(data@, at as int),
{
    if !fits(data.len(), at, 2) {
        return None;
    }
    Some(data[at] as u16 * 256 + data[at + 1] as u16)
}

pub fn be_u32(data: &[u8], at: usize) -> (r: Option<u32>)
    ensures
        r is Some <==> at + 4 <= data@.len(),
        r matches Some(v) ==> v == be32(data@, at as int),
{
    if !fits(data.len(), at, 4) {
        return None;
    }
    Some(
        data[at] as u32 * 0x100_0000 + data[at + 1] as u32 * 0x1_0000 + data[at + 2] as u32 * 0x100
            + data[at + 3] as u32,
    )
}

pub fn le_u32(data: &[u8], at: usize) -> (r: Option<u32>)
    ensures
        r is Some <==> at + 4 <= data@.len(),
        r matches Some(v) ==> v == le32(data@, at as int),
{
    if !fits(data.len(), at, 4) {
        return None;
    }
    Some(
        data[at + 3] as u32 * 0x100_0000 + data[at + 2] as u32 * 0x1_0000 + data[at + 1] as u32
            * 0x100 + data[at] as u32,
    )
}

pub fn read_u16(data: &[u8], at: usize, be: bool) -> (r: Option<u16>)
    ensures
        r is Some <==> at + 2 <= data@.len(),
        r matches Some(v) ==> v == word16(data@, at as int, be),
{
    if be {
        return be_u16(data, at);
    }
    if !fits(data.len(), at, 2) {
        return None;
    }
    Some(data[at + 1] as u16 * 256 + data[at] as u16)
}

pub fn read_u32(data: &[u8], at: usize, be: bool) -> (r: Option<u32>)
    ensures
        r is Some <==> at + 4 <= data@.len(),
        r matches Some(v) ==> v == word32(data@, at as int, be),
{
    if be {
        be_u32(data, at)
    } else {
        le_u32(data, at)
    }
}

/// Appends the four bytes of `v`, least significant first.
pub fn push_le32(out: &mut Vec<u8>, v: u32)
    ensures
        final(out)@ == old(out)@ + le32_bytes(v as int),
{
    out.push((v % 256) as u8);
    out.push((v / 0x100 % 256) as u8);
    out.push((v / 0x1_0000 % 256) as u8);
    out.push((v / 0x100_0000 % 256) as u8);
    proof {
        reveal(le32_bytes);
    }
}

/// Whether the bytes of `data` at `at` are exactly `mark`.
pub open spec fn has_at(d: Seq<u8>, at: int, mark: Seq<u8>) -> bool {
    &&& at + mark.len() <= d.len()
    &&& d.subrange(at, at + mark.len()) == mark
}

pub fn matches_at(data: &[u8], at: usize, mark: &[u8]) -> (r: bool)
    ensures
        r == has_at(data@, at as int, mark@),
{
    if !fits(data.len(), at, mark.len()) {
        return false;
    }
    let mut i: usize = 0;
    while i < mark.len()
        invariant
            i <= mark@.len(),
            at + mark@.len() <= data@.len() <= usize::MAX,
            forall|k: int| 0 <= k < i ==> data@[at + k] == mark@[k],
        decreases mark@.len() - i,
    {
        if data[at + i] != mark[i] {
            assert(data@.subrange(at as int, at + mark@.len())[i as int] != mark@[i as int]);
            return false;
        }
        i += 1;
    }
    assert(data@.subrange(at as int, at + mark@.len()) =~= mark@);
    true
}

/// Whether an outcome is the one wanted, bytes or error text.
pub open spec fn same(r: Result<Vec<u8>, String>, want: Result<Seq<u8>, Seq<char>>) -> bool {
    match (r, want) {
        (Ok(out), Ok(w)) => out@ == w,
        (Err(e), Err(m)) => e@ == m,
        _ => false,
    }
}

/// Appends `data[from..to]` to `out`.
pub fn push_range(out: &mut Vec<u8>, data: &[u8], from: usize, to: usize)
    requires
        from <= to <= data@.len(),
    ensures
        final(out)@ == old(out)@ + data@.subrange(from as int, to as int),
{
    let part = slice_subrange(data, from, to);
    out.extend_from_slice(part);
    assert(out@ =~= old(out)@ + data@.subrange(from as int, to as int));
}

/// Numbers are read back from the bytes that they are written in, the highest byte first or
/// the lowest.
pub proof fn numbers_are_read_back(n: int, m: int, d: Seq<u8>, at: int)
    requires
        0 <= at,
        at + 4 <= d.len(),
        0 <= n < 4294967296,
        0 <= m < 65536,
    ensures
        d[at] == n / 16777216 && d[at + 1] == n / 65536 % 256 && d[at + 2] == n / 256 % 256 && d[at
            + 3] == n % 256 ==> be32(d, at) == n && word32(d, at, true) == n,
        d[at + 3] == n / 16777216 && d[at + 2] == n / 65536 % 256 && d[at + 1] == n / 256 % 256
            && d[at] == n % 256 ==> le32(d, at) == n && word32(d, at, false) == n,
        d[at] == m / 256 && d[at + 1] == m % 256 ==> be16(d, at) == m && word16(d, at, true) == m,
        d[at + 1] == m / 256 && d[at] == m % 256 ==> le16(d, at) == m && word16(d, at, false) == m,
{
    assert(n / 16777216 * 16777216 + n / 65536 % 256 * 65536 + n / 256 % 256 * 256 + n % 256 == n);
    assert(m / 256 * 256 + m % 256 == m);
}

/// An outcome is the one wanted only where it is the same bytes, or the same error.
pub proof fn outcome_is_the_one_wanted(
    r: Result<Vec<u8>, String>,
    want: Result<Seq<u8>, Seq<char>>,
)
    ensures
        same(r, want) ==> (r is Ok <==> want is Ok),
        same(r, want) && r is Ok ==> r->Ok_0@ == want->Ok_0,
        same(r, want) && r is Err ==> r->Err_0@ == want->Err_0,
{
}

/// A mark stands at a place where its bytes are those of the file from there on.
pub proof fn mark_stands_where_its_bytes_are(a: Seq<u8>, mark: Seq<u8>, b: Seq<u8>, d: Seq<u8>)
    ensures
        has_at(a + mark + b, a.len() as int, mark),
        d.len() < mark.len() ==> !has_at(d, 0, mark),
        has_at(d, 0, mark) && mark.len() > 0 ==> d[0] == mark[0] && d[mark.len() - 1]
            == mark.last(),
{
    let all = a + mark + b;
    assert(all.subrange(a.len() as int, a.len() as int + mark.len()) =~= mark);
    if has_at(d, 0, mark) && mark.len() > 0 {
        let s = d.subrange(0, mark.len() as int);
        assert(s[0] == d[0] && s[mark.len() - 1] == d[mark.len() - 1]);
    }
}

} // verus!
