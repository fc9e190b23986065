//! Text as it is shown: cut at a zero byte, freed of control characters, shortened.
use vstd::prelude::*;
use vstd::slice::slice_subrange;
use vstd::utf8::*;

verus! {

/// How many characters of a value are shown.
pub const VALUE_LIMIT: usize = 200;

/// `std::string::String::push`: appends one character.
pub assume_specification[ String::push ](s: &mut String, c: char)
    ensures
        final(s)@ == old(s)@.push(c),
;

/// The characters of a text, one by one.
pub fn chars_of(s: &str) -> (r: Vec<char>)
    ensures
        r@ == s@,
{
    let mut out: Vec<char> = Vec::new();
    for c in it: s.chars()
        invariant
            out@ == s@.take(it.index()),
            it.seq() == s@,
    {
        out.push(c);
        assert(out@ =~= s@.take(it.index() + 1));
    }
    assert(out@ =~= s@);
    out
}

/// A text made of the characters `from..to` of `v`.
pub fn string_of(v: &Vec<char>, from: usize, to: usize) -> (r: String)
    requires
        from <= to <= v@.len(),
    ensures
        r@ == v@.subrange(from as int, to as int),
{
    let mut out = String::new();
    let mut i: usize = from;
    while i < to
        invariant
            from <= i <= to <= v@.len(),
            out@ == v@.subrange(from as int, i as int),
        decreases to - i,
    {
        out.push(v[i]);
        i += 1;
        assert(out@ =~= v@.subrange(from as int, i as int));
    }
    out
}

/// What an optional text says.
pub open spec fn said(s: Option<String>) -> Option<Seq<char>> {
    match s {
        Some(t) => Some(t@),
        None => None,
    }
}

/// A copy of an optional text.
pub fn copy_option(s: &Option<String>) -> (r: Option<String>)
    ensures
        said(r) == said(*s),
{
    match s {
        Some(t) => Some(t.clone()),
        None => None,
    }
}

/// The decimal digit of `d`.
pub open spec fn digit(d: int) -> char {
    (48 + d) as char
}

/// `n` in decimal, without leading zeros.
pub open spec fn decimal(n: nat) -> Seq<char>
    decreases n,
{
    if n < 10 {
        seq![digit(n as int)]
    } else {
        decimal(n / 10).push(digit((n % 10) as int))
    }
}

pub fn decimal_text(n: u64) -> (r: String)
    ensures
        r@ == decimal(n as nat),
    decreases n,
{
    if n < 10 {
        let mut s = String::new();
        s.push((48u8 + n as u8) as char);
        assert(s@ =~= decimal(n as nat));
        s
    } else {
        let mut s = decimal_text(n / 10);
        s.push((48u8 + (n % 10) as u8) as char);
        s
    }
}

/// The digit of `d` in base sixteen, in small letters.
pub open spec fn hex_digit(d: int) -> char {
    if d < 10 {
        (48 + d) as char
    } else {
        (87 + d) as char
    }
}

/// A number in base sixteen, as four digits.
pub open spec fn hex4(n: u16) -> Seq<char> {
    seq![
        hex_digit((n / 0x1000) as int),
        hex_digit((n / 0x100 % 16) as int),
        hex_digit((n / 16 % 16) as int),
        hex_digit((n % 16) as int),
    ]
}

fn hex_char(d: u16) -> (r: char)
    requires
        d < 16,
    ensures
        r == hex_digit(d as int),
{
    if d < 10 {
        (48u8 + d as u8) as char
    } else {
        (87u8 + d as u8) as char
    }
}

pub fn hex4_text(n: u16) -> (r: String)
    ensures
        r@ == hex4(n),
{
    let mut out = String::new();
    out.push(hex_char(n / 0x1000));
    out.push(hex_char(n / 0x100 % 16));
    out.push(hex_char(n / 16 % 16));
    out.push(hex_char(n % 16));
    assert(out@ =~= hex4(n));
    out
}

/// What a list of texts says.
pub open spec fn views(list: Seq<String>) -> Seq<Seq<char>> {
    list.map_values(|s: String| s@)
}

/// A list of texts one behind the other, with `between` between each two.
pub open spec fn joined(list: Seq<Seq<char>>, between: Seq<char>) -> Seq<char>
    decreases list.len(),
{
    if list.len() == 0 {
        Seq::empty()
    } else if list.len() == 1 {
        list[0]
    } else {
        joined(list.drop_last(), between) + between + list.last()
    }
}

pub fn join(list: &Vec<String>, between: &str) -> (r: String)
    ensures
        r@ == joined(views(list@), between@),
{
    let mut out = String::new();
    let ghost all = views(list@);
    let mut i: usize = 0;
    while i < list.len()
        invariant
            i <= list@.len(),
            all == views(list@),
            out@ == joined(all.take(i as int), between@),
        decreases list@.len() - i,
    {
        proof {
            assert(all[i as int] == list@[i as int]@);
            let next = all.take(i + 1);
            assert(next.drop_last() =~= all.take(i as int));
            assert(next.last() == all[i as int]);
        }
        if i > 0 {
            out.append(between);
        }
        out.append(list[i].as_str());
        i += 1;
        assert(out@ =~= joined(all.take(i as int), between@));
    }
    assert(all.take(list@.len() as int) =~= all);
    out
}

/// An integer in decimal, with a minus sign where it is below zero.
pub open spec fn signed(n: int) -> Seq<char> {
    if n < 0 {
        seq!['-'] + decimal((-n) as nat)
    } else {
        decimal(n as nat)
    }
}

pub fn signed_text(n: i64) -> (r: String)
    ensures
        r@ == signed(n as int),
{
    if n < 0 {
        let mut out = String::new();
        out.push('-');
        assert(out@ =~= seq!['-']);
        out.append(decimal_text((-(n as i128)) as u64).as_str());
        out
    } else {
        decimal_text(n as u64)
    }
}

/// Whether `c` is a decimal digit.
pub open spec fn is_digit(c: char) -> bool {
    '0' <= c <= '9'
}

/// The number that decimal digits stand for.
pub open spec fn digits_value(s: Seq<char>) -> nat
    decreases s.len(),
{
    if s.len() == 0 {
        0
    } else {
        (digits_value(s.drop_last()) * 10 + (s.last() as int - 48)) as nat
    }
}

/// The digits of a number that may begin with a plus sign.
pub open spec fn unsigned_digits(s: Seq<char>) -> Seq<char> {
    if s.len() > 0 && s[0] == '+' {
        s.skip(1)
    } else {
        s
    }
}

/// The number that a text stands for: digits, at least one, behind an optional plus sign,
/// worth no more than 64 bits hold.
pub open spec fn number(s: Seq<char>) -> Option<u64> {
    let d = unsigned_digits(s);
    if d.len() > 0 && (forall|i: int| 0 <= i < d.len() ==> is_digit(#[trigger] d[i])) && digits_value(
        d,
    ) <= u64::MAX {
        Some(digits_value(d) as u64)
    } else {
        None
    }
}

pub fn parse_number(s: &str) -> (r: Option<u64>)
    ensures
        r == number(s@),
{
    let v = chars_of(s);
    let from: usize = if v.len() > 0 && v[0] == '+' {
        1
    } else {
        0
    };
    let ghost d = unsigned_digits(s@);
    assert(d =~= v@.skip(from as int));
    if v.len() == from {
        return None;
    }
    let mut value: u64 = 0;
    let mut i: usize = from;
    assert(d.take(0) =~= Seq::empty());
    while i < v.len()
        invariant
            v@ == s@,
            d == unsigned_digits(s@),
            from <= i <= v@.len(),
            d.len() == v@.len() - from,
            d.len() > 0,
            d == v@.skip(from as int),
            forall|k: int| 0 <= k < i - from ==> is_digit(#[trigger] d[k]),
            value == digits_value(d.take(i - from)),
        decreases v@.len() - i,
    {
        let c = v[i];
        assert(d[i - from] == c);
        if !('0' <= c && c <= '9') {
            return None;
        }
        let ghost next = d.take(i - from + 1);
        proof {
            assert(next.drop_last() =~= d.take(i - from));
            assert(next.last() == c);
        }
        let low: u64 = (c as u32 - 48) as u64;
        assert(digits_value(next) == value * 10 + low);
        if value > 0x1999_9999_9999_9999 || (value == 0x1999_9999_9999_9999 && low > 5) {
            proof {
                lemma_digits_grow(d, i - from + 1);
            }
            return None;
        }
        value = value * 10 + low;
        i += 1;
    }
    assert(d.take(d.len() as int) =~= d);
    Some(value)
}

/// More digits stand for no smaller number.
proof fn lemma_digits_grow(d: Seq<char>, k: int)
    requires
        0 <= k <= d.len(),
    ensures
        (forall|i: int| 0 <= i < d.len() ==> is_digit(#[trigger] d[i])) ==> digits_value(d)
            >= digits_value(d.take(k)),
    decreases d.len() - k,
{
    if k == d.len() {
        assert(d.take(k) =~= d);
    } else {
        lemma_digits_grow(d, k + 1);
        assert(d.take(k + 1).drop_last() =~= d.take(k));
        assert(d.take(k + 1).last() == d[k]);
    }
}

/// Whether two texts are the same.
pub fn same_text(a: &str, b: &str) -> (r: bool)
    ensures
        r == (a@ == b@),
{
    let x = chars_of(a);
    let y = chars_of(b);
    if x.len() != y.len() {
        return false;
    }
    let mut i: usize = 0;
    while i < x.len()
        invariant
            x@ == a@,
            y@ == b@,
            x@.len() == y@.len(),
            i <= x@.len(),
            forall|k: int| 0 <= k < i ==> x@[k] == y@[k],
        decreases x@.len() - i,
    {
        if x[i] != y[i] {
            return false;
        }
        i += 1;
    }
    assert(x@ =~= y@);
    true
}

/// The small letter of a capital one of the Latin alphabet; any other character as it is.
pub open spec fn lowered_char(c: char) -> char {
    if 'A' <= c <= 'Z' {
        ((c as u8) + 32) as u8 as char
    } else {
        c
    }
}

/// `s` with the capital letters of the Latin alphabet made small.
pub open spec fn lowered(s: Seq<char>) -> Seq<char> {
    s.map_values(|c: char| lowered_char(c))
}

pub fn lower(s: &str) -> (r: String)
    ensures
        r@ == lowered(s@),
{
    let mut out = String::new();
    for c in it: s.chars()
        invariant
            it.seq() == s@,
            out@ == lowered(s@.take(it.index())),
    {
        out.push(
            if 'A' <= c && c <= 'Z' {
                (c as u8 + 32) as char
            } else {
                c
            },
        );
        assert(out@ =~= lowered(s@.take(it.index() + 1)));
    }
    assert(s@.take(s@.len() as int) =~= s@);
    out
}

/// `n` in decimal, filled with zeros on the left up to `width` characters.
pub open spec fn padded(n: nat, width: nat) -> Seq<char> {
    let plain = decimal(n);
    Seq::new(
        (if plain.len() < width {
            (width - plain.len()) as nat
        } else {
            0
        }),
        |i: int| '0',
    ) + plain
}

pub fn padded_text(n: u64, width: usize) -> (r: String)
    ensures
        r@ == padded(n as nat, width as nat),
{
    let plain = decimal_text(n);
    let count = plain.as_str().unicode_len();
    let mut out = String::new();
    let mut i: usize = count;
    while i < width
        invariant
            count == plain@.len(),
            plain@ == decimal(n as nat),
            count <= i,
            i <= width || i == count,
            out@ == Seq::new((i - count) as nat, |k: int| '0'),
        decreases width - i,
    {
        out.push('0');
        i += 1;
        assert(out@ =~= Seq::new((i - count) as nat, |k: int| '0'));
    }
    out.append(plain.as_str());
    assert(out@ =~= padded(n as nat, width as nat));
    out
}

/// The control characters of Unicode (general category Cc).
pub open spec fn is_control(c: char) -> bool {
    (c as u32) < 0x20 || 0x7F <= (c as u32) <= 0x9F
}

/// The characters that Unicode counts as white space (property White_Space).
pub open spec fn is_space(c: char) -> bool {
    let u = c as u32;
    ||| 0x09 <= u <= 0x0D
    ||| u == 0x20
    ||| u == 0x85
    ||| u == 0xA0
    ||| u == 0x1680
    ||| 0x2000 <= u <= 0x200A
    ||| u == 0x2028
    ||| u == 0x2029
    ||| u == 0x202F
    ||| u == 0x205F
    ||| u == 0x3000
}

pub fn char_is_control(c: char) -> (r: bool)
    ensures
        r == is_control(c),
{
    let u = c as u32;
    u < 0x20 || (0x7F <= u && u <= 0x9F)
}

pub fn char_is_space(c: char) -> (r: bool)
    ensures
        r == is_space(c),
{
    let u = c as u32;
    (0x09 <= u && u <= 0x0D) || u == 0x20 || u == 0x85 || u == 0xA0 || u == 0x1680 || (0x2000 <= u
        && u <= 0x200A) || u == 0x2028 || u == 0x2029 || u == 0x202F || u == 0x205F || u == 0x3000
}

/// `s` without the white space at its start.
pub open spec fn trim_front(s: Seq<char>) -> Seq<char>
    decreases s.len(),
{
    if s.len() > 0 && is_space(s[0]) {
        trim_front(s.skip(1))
    } else {
        s
    }
}

/// `s` without the white space at its end.
pub open spec fn trim_back(s: Seq<char>) -> Seq<char>
    decreases s.len(),
{
    if s.len() > 0 && is_space(s.last()) {
        trim_back(s.drop_last())
    } else {
        s
    }
}

pub open spec fn trimmed(s: Seq<char>) -> Seq<char> {
    trim_back(trim_front(s))
}

/// `s` with every control character replaced by a space.
pub open spec fn without_controls(s: Seq<char>) -> Seq<char> {
    s.map_values(
        |c: char|
            if is_control(c) {
                ' '
            } else {
                c
            },
    )
}

/// The words of `s` with one space between each two: a character that is no white space is
/// kept, and the first of each word but the first gets a space in front.
pub open spec fn flattened(s: Seq<char>) -> Seq<char>
    decreases s.len(),
{
    if s.len() == 0 {
        s
    } else {
        let rest = flattened(s.drop_last());
        if is_space(s.last()) {
            rest
        } else if rest.len() > 0 && is_space(s[s.len() - 2]) {
            rest.push(' ').push(s.last())
        } else {
            rest.push(s.last())
        }
    }
}

/// At most [`VALUE_LIMIT`] characters of `s`, with an ellipsis where something was cut.
pub open spec fn shortened(s: Seq<char>) -> Seq<char> {
    if s.len() <= VALUE_LIMIT {
        s
    } else {
        s.take(VALUE_LIMIT as int).push('…')
    }
}

/// How a decoded value is shown.
pub open spec fn shown(decoded: Seq<char>) -> Seq<char> {
    shortened(trimmed(without_controls(decoded)))
}

/// Where the first zero byte at or after `from` stands; the length where there is none.
pub open spec fn zero_from(b: Seq<u8>, from: int) -> int
    decreases b.len() - from,
{
    if from >= b.len() || b[from] == 0 {
        from
    } else {
        zero_from(b, from + 1)
    }
}

/// The bytes of `b` before its first zero byte.
pub open spec fn before_zero(b: Seq<u8>) -> Seq<u8> {
    b.take(zero_from(b, 0))
}

pub proof fn lemma_zero_from(b: Seq<u8>, from: int)
    requires
        0 <= from <= b.len(),
    ensures
        from <= zero_from(b, from) <= b.len(),
        zero_from(b, from) < b.len() ==> b[zero_from(b, from)] == 0,
        forall|i: int| from <= i < zero_from(b, from) ==> b[i] != 0,
    decreases b.len() - from,
{
    if from < b.len() && b[from] != 0 {
        lemma_zero_from(b, from + 1);
    }
}

/// The position of the first zero byte, or the length where there is none.
pub fn zero_position(bytes: &[u8]) -> (r: usize)
    ensures
        r == zero_from(bytes@, 0),
        r <= bytes@.len(),
{
    let mut i: usize = 0;
    while i < bytes.len() && bytes[i] != 0
        invariant
            i <= bytes@.len(),
            zero_from(bytes@, 0) == zero_from(bytes@, i as int),
        decreases bytes@.len() - i,
    {
        i += 1;
    }
    i
}

/// What `String::from_utf8_lossy` makes of `bytes`.
pub uninterp spec fn lossy_text(bytes: Seq<u8>) -> Seq<char>;

/// `std::string::String::from_utf8_lossy`: the text of `bytes`, with a replacement
/// character for what is no UTF-8. Valid UTF-8 comes out as the text that it encodes.
#[verifier::external_body]
pub(crate) fn utf8_lossy(bytes: &[u8]) -> (r: String)
    ensures
        r@ == lossy_text(bytes@),
        valid_utf8(bytes@) ==> r@ == decode_utf8(bytes@),
{
    String::from_utf8_lossy(bytes).into_owned()
}

pub fn truncate(text: &str) -> (r: String)
    ensures
        r@ == shortened(text@),
{
    let v = chars_of(text);
    if v.len() <= VALUE_LIMIT {
        let out = string_of(&v, 0, v.len());
        assert(out@ =~= text@);
        return out;
    }
    let mut out = string_of(&v, 0, VALUE_LIMIT);
    assert(out@ =~= text@.take(VALUE_LIMIT as int));
    out.push('…');
    out
}

/// The text without the white space at its ends.
pub fn trim(text: &str) -> (r: String)
    ensures
        r@ == trimmed(text@),
{
    let v = chars_of(text);
    let mut from: usize = 0;
    assert(v@.skip(0) =~= v@);
    while from < v.len() && char_is_space(v[from])
        invariant
            from <= v@.len(),
            trim_front(v@) == trim_front(v@.skip(from as int)),
        decreases v@.len() - from,
    {
        assert(v@.skip(from as int).skip(1) =~= v@.skip(from + 1));
        from += 1;
    }
    let mut to: usize = v.len();
    assert(v@.subrange(from as int, to as int) =~= v@.skip(from as int));
    while to > from && char_is_space(v[to - 1])
        invariant
            from <= to <= v@.len(),
            trim_back(v@.skip(from as int)) == trim_back(v@.subrange(from as int, to as int)),
        decreases to - from,
    {
        let ghost cut = v@.subrange(from as int, to as int);
        assert(cut.drop_last() =~= v@.subrange(from as int, to - 1));
        assert(cut.last() == v@[to - 1]);
        to -= 1;
    }
    string_of(&v, from, to)
}

/// The words of a text with one space between each two.
pub fn flatten(s: &str) -> (r: String)
    ensures
        r@ == flattened(s@),
{
    let mut out = String::new();
    let mut begun: bool = false;
    let mut after_space: bool = false;
    for c in it: s.chars()
        invariant
            it.seq() == s@,
            out@ == flattened(s@.take(it.index())),
            begun == (out@.len() > 0),
            after_space == (it.index() > 0 && is_space(s@[it.index() - 1])),
    {
        proof {
            let next = s@.take(it.index() + 1);
            assert(next.drop_last() =~= s@.take(it.index()));
            assert(next.last() == c);
            if it.index() > 0 {
                assert(next[next.len() - 2] == s@[it.index() - 1]);
            }
        }
        if char_is_space(c) {
            after_space = true;
        } else {
            if begun && after_space {
                out.push(' ');
            }
            out.push(c);
            begun = true;
            after_space = false;
        }
    }
    assert(s@.take(s@.len() as int) =~= s@);
    out
}

/// A flattened text is one line: its only white space is the plain space, never two of them
/// together and none at the ends.
pub proof fn flattened_text_is_one_line(s: Seq<char>)
    ensures
        forall|i: int|
            0 <= i < flattened(s).len() && is_space(#[trigger] flattened(s)[i]) ==> {
                &&& flattened(s)[i] == ' '
                &&& 0 < i < flattened(s).len() - 1
                &&& !is_space(flattened(s)[i - 1])
            },
    decreases s.len(),
{
    if s.len() > 0 {
        flattened_text_is_one_line(s.drop_last());
        lemma_flattened_end(s.drop_last());
    }
}

proof fn lemma_flattened_end(s: Seq<char>)
    ensures
        flattened(s).len() > 0 ==> !is_space(flattened(s).last()),
    decreases s.len(),
{
    if s.len() > 0 {
        lemma_flattened_end(s.drop_last());
    }
}

/// How a decoded value is shown: control characters become spaces, the ends are trimmed,
/// and what is too long is cut.
pub fn shown_text(decoded: &str) -> (r: String)
    ensures
        r@ == shown(decoded@),
{
    let mut clean = String::new();
    for c in it: decoded.chars()
        invariant
            it.seq() == decoded@,
            clean@ == without_controls(decoded@.take(it.index())),
    {
        clean.push(
            if char_is_control(c) {
                ' '
            } else {
                c
            },
        );
        assert(clean@ =~= without_controls(decoded@.take(it.index() + 1)));
    }
    assert(decoded@.take(decoded@.len() as int) =~= decoded@);
    let cut = trim(clean.as_str());
    truncate(cut.as_str())
}

/// The text of raw bytes: what valid UTF-8 encodes, and of other bytes what
/// `String::from_utf8_lossy` makes of them.
pub open spec fn decoded(b: Seq<u8>) -> Seq<char> {
    if valid_utf8(b) {
        decode_utf8(b)
    } else {
        lossy_text(b)
    }
}

/// How raw bytes are shown: up to the first zero byte, decoded, cleaned and shortened.
pub open spec fn value_text(b: Seq<u8>) -> Seq<char> {
    shown(decoded(before_zero(b)))
}

pub fn text_value(bytes: &[u8]) -> (r: String)
    ensures
        r@ == value_text(bytes@),
        valid_utf8(before_zero(bytes@)) ==> r@ == shown(decode_utf8(before_zero(bytes@))),
{
    let end = zero_position(bytes);
    let part = slice_subrange(bytes, 0, end);
    assert(part@ =~= before_zero(bytes@));
    let decoded = utf8_lossy(part);
    shown_text(decoded.as_str())
}

/// A text shown as a value never exceeds the limit by more than its ellipsis.
pub proof fn shown_text_is_bounded(decoded: Seq<char>)
    ensures
        shown(decoded).len() <= VALUE_LIMIT + 1,
{
}

/// A number below ten is the one character for it; any other is what it is tenfold of, and one
/// more such character. So a number is written in decimal, without leading zeros.
pub proof fn numbers_are_written_in_decimal(n: nat)
    ensures
        decimal(0) == "0"@ && decimal(1) == "1"@ && decimal(2) == "2"@ && decimal(3) == "3"@,
        decimal(4) == "4"@ && decimal(5) == "5"@ && decimal(6) == "6"@ && decimal(7) == "7"@,
        decimal(8) == "8"@ && decimal(9) == "9"@,
        n >= 10 ==> decimal(n) == decimal(n / 10) + decimal(n % 10),
{
    reveal_strlit("0");
    reveal_strlit("1");
    reveal_strlit("2");
    reveal_strlit("3");
    reveal_strlit("4");
    reveal_strlit("5");
    reveal_strlit("6");
    reveal_strlit("7");
    reveal_strlit("8");
    reveal_strlit("9");
    assert(decimal(0) =~= "0"@);
    assert(decimal(1) =~= "1"@);
    assert(decimal(2) =~= "2"@);
    assert(decimal(3) =~= "3"@);
    assert(decimal(4) =~= "4"@);
    assert(decimal(5) =~= "5"@);
    assert(decimal(6) =~= "6"@);
    assert(decimal(7) =~= "7"@);
    assert(decimal(8) =~= "8"@);
    assert(decimal(9) =~= "9"@);
    if n >= 10 {
        assert(decimal(n) =~= decimal(n / 10) + decimal(n % 10));
    }
}

proof fn lemma_decimal_digits(n: nat)
    ensures
        decimal(n).len() > 0,
        forall|i: int| 0 <= i < decimal(n).len() ==> is_digit(#[trigger] decimal(n)[i]),
        digits_value(decimal(n)) == n,
    decreases n,
{
    if n < 10 {
        let one = decimal(n);
        assert(one.drop_last() =~= Seq::empty());
        assert(digits_value(one.drop_last()) == 0);
    } else {
        lemma_decimal_digits(n / 10);
        let all = decimal(n);
        assert(all.drop_last() =~= decimal(n / 10));
    }
}

/// A number that was written is read back, with a plus sign in front or without; a text with
/// anything but digits behind that is no number.
pub proof fn written_number_is_read_back(n: u64, s: Seq<char>, i: int)
    ensures
        number(decimal(n as nat)) == Some(n),
        number("+"@ + decimal(n as nat)) == Some(n),
        number(Seq::empty()) is None,
        0 < i < s.len() && !('0' <= s[i] <= '9') ==> number(s) is None,
        s.len() > 0 && !('0' <= s[0] <= '9') && s[0] != '+' ==> number(s) is None,
{
    reveal_strlit("+");
    let d = decimal(n as nat);
    lemma_decimal_digits(n as nat);
    assert(is_digit(d[0]));
    assert(unsigned_digits(d) == d);
    assert(("+"@ + d).skip(1) =~= d);
    assert(("+"@ + d)[0] == '+');
    if 0 < i < s.len() && !('0' <= s[i] <= '9') {
        let u = unsigned_digits(s);
        let k = if s[0] == '+' {
            i - 1
        } else {
            i
        };
        assert(u[k] == s[i]);
        assert(!is_digit(u[k]));
    }
    if s.len() > 0 && !('0' <= s[0] <= '9') && s[0] != '+' {
        assert(!is_digit(unsigned_digits(s)[0]));
    }
}

/// A number is filled with zeros on the left to a width, and never cut.
pub proof fn filled_number_keeps_its_digits(n: nat, width: nat)
    ensures
        decimal(n).len() >= width ==> padded(n, width) == decimal(n),
        decimal(n).len() < width ==> padded(n, width) == "0"@ + padded(n, (width - 1) as nat),
{
    reveal_strlit("0");
    assert(decimal(n).len() >= width ==> padded(n, width) =~= decimal(n));
    if decimal(n).len() < width {
        assert(padded(n, width) =~= "0"@ + padded(n, (width - 1) as nat));
    }
}

/// The four digits of a number in base sixteen, from the highest: each is the character for it
/// in "0123456789abcdef".
pub proof fn four_digits_of_sixteen(n: u16)
    ensures
        hex4(n).len() == 4,
        hex4(n)[0] == "0123456789abcdef"@[n as int / 4096],
        hex4(n)[1] == "0123456789abcdef"@[n as int / 256 % 16],
        hex4(n)[2] == "0123456789abcdef"@[n as int / 16 % 16],
        hex4(n)[3] == "0123456789abcdef"@[n as int % 16],
{
    reveal_strlit("0123456789abcdef");
    assert forall|d: int| 0 <= d < 16 implies #[trigger] hex_digit(d) == "0123456789abcdef"@[d] by {
        assert(d == 0 || d == 1 || d == 2 || d == 3 || d == 4 || d == 5 || d == 6 || d == 7 || d == 8
            || d == 9 || d == 10 || d == 11 || d == 12 || d == 13 || d == 14 || d == 15);
    }
    assert(hex_digit((n / 0x1000) as int) == "0123456789abcdef"@[n as int / 4096]);
    assert(hex_digit((n / 0x100 % 16) as int) == "0123456789abcdef"@[n as int / 256 % 16]);
    assert(hex_digit((n / 16 % 16) as int) == "0123456789abcdef"@[n as int / 16 % 16]);
}

/// A number below zero is its opposite behind a minus sign.
pub proof fn minus_stands_in_front(n: int)
    ensures
        n >= 0 ==> signed(n) == decimal(n as nat),
        n < 0 ==> signed(n) == "-"@ + decimal((-n) as nat),
{
    reveal_strlit("-");
    assert("-"@ =~= seq!['-']);
}

/// Only the 26 capital letters of the Latin alphabet change when a text is put in small
/// letters, each to the letter 32 places behind it.
pub proof fn small_letters_are_of_the_latin_alphabet(s: Seq<char>, i: int)
    requires
        0 <= i < s.len(),
    ensures
        lowered(s).len() == s.len(),
        'A' <= s[i] <= 'Z' ==> lowered(s)[i] as u32 == s[i] as u32 + 32,
        !('A' <= s[i] <= 'Z') ==> lowered(s)[i] == s[i],
{
}

proof fn lemma_trim_front(s: Seq<char>)
    ensures
        trim_front(s).len() <= s.len(),
        trim_front(s) == s.skip(s.len() - trim_front(s).len()),
        trim_front(s).len() > 0 ==> !is_space(trim_front(s)[0]),
        forall|i: int| 0 <= i < s.len() - trim_front(s).len() ==> is_space(#[trigger] s[i]),
    decreases s.len(),
{
    if s.len() > 0 && is_space(s[0]) {
        let rest = s.skip(1);
        lemma_trim_front(rest);
        assert(rest.skip(rest.len() - trim_front(rest).len()) =~= s.skip(
            s.len() - trim_front(s).len(),
        ));
        assert forall|i: int| 0 <= i < s.len() - trim_front(s).len() implies is_space(
            #[trigger] s[i],
        ) by {
            if i > 0 {
                assert(rest[i - 1] == s[i]);
            }
        }
    } else {
        assert(s.skip(0) =~= s);
    }
}

proof fn lemma_trim_back(s: Seq<char>)
    ensures
        trim_back(s).len() <= s.len(),
        trim_back(s) == s.take(trim_back(s).len() as int),
        trim_back(s).len() > 0 ==> !is_space(trim_back(s).last()),
        forall|i: int| trim_back(s).len() <= i < s.len() ==> is_space(#[trigger] s[i]),
    decreases s.len(),
{
    if s.len() > 0 && is_space(s.last()) {
        let rest = s.drop_last();
        lemma_trim_back(rest);
        assert(rest.take(trim_back(rest).len() as int) =~= s.take(trim_back(s).len() as int));
        assert forall|i: int| trim_back(s).len() <= i < s.len() implies is_space(#[trigger] s[i]) by {
            if i < s.len() - 1 {
                assert(rest[i] == s[i]);
            }
        }
    } else {
        assert(s.take(s.len() as int) =~= s);
    }
}

/// A text behind and in front of white space is what is left of it: nothing else is taken, and
/// all of the white space is.
pub proof fn only_white_space_is_trimmed(before: Seq<char>, s: Seq<char>, behind: Seq<char>)
    requires
        forall|i: int| 0 <= i < before.len() ==> is_space(#[trigger] before[i]),
        forall|i: int| 0 <= i < behind.len() ==> is_space(#[trigger] behind[i]),
        s.len() > 0 ==> !is_space(s[0]) && !is_space(s.last()),
    ensures
        trimmed(before + s + behind) == s,
{
    let all = before + s + behind;
    let f = trim_front(all);
    lemma_trim_front(all);
    lemma_trim_back(f);
    let cut = all.len() - f.len();
    if s.len() > 0 {
        assert(all[before.len() as int] == s[0]);
        assert(!is_space(all[before.len() as int]));
        assert(cut <= before.len());
        if cut < before.len() {
            assert(f[0] == all[cut]);
            assert(all[cut] == before[cut]);
        }
        assert(f =~= s + behind);
        let t = trim_back(f);
        assert(f[s.len() - 1] == s.last());
        assert(t.len() >= s.len());
        if t.len() > s.len() {
            assert(t.last() == f[t.len() - 1]);
            assert(f[t.len() - 1] == behind[t.len() - 1 - s.len()]);
        }
        assert(t =~= s);
    } else {
        if f.len() > 0 {
            assert(f[0] == all[cut]);
            if cut < before.len() {
                assert(all[cut] == before[cut]);
            } else {
                assert(all[cut] == behind[cut - before.len()]);
            }
        }
        assert(trim_back(f) =~= s);
    }
}

/// The characters that count as white space: spaces, tabs, ends of lines among them, no letter,
/// digit or mark of the first 128.
pub proof fn white_space_is_no_letter(c: char)
    ensures
        is_space(' ') && is_space('\t') && is_space('\n') && is_space('\r') && is_space('\u{A0}'),
        33 <= c as u32 <= 126 ==> !is_space(c),
        0x400 <= c as u32 <= 0x4FF ==> !is_space(c),
{
}

/// A text of no more than two hundred characters is shown as it is where no control character
/// is in it and no white space at its ends; of a longer one the first two hundred are shown,
/// and an ellipsis.
pub proof fn plain_text_is_shown_as_it_is(s: Seq<char>)
    requires
        forall|i: int| 0 <= i < s.len() ==> (#[trigger] s[i]) as u32 >= 0x20 && !(0x7F <= s[i] as u32
            <= 0x9F),
        s.len() > 0 ==> !is_space(s[0]) && !is_space(s.last()),
    ensures
        s.len() <= 200 ==> shown(s) == s,
        s.len() > 200 ==> shown(s) == s.take(200) + "…"@,
{
    reveal_strlit("…");
    assert(without_controls(s) =~= s);
    only_white_space_is_trimmed(Seq::empty(), s, Seq::empty());
    assert(Seq::empty() + s + Seq::empty() =~= s);
    if s.len() > 200 {
        assert(s.take(200).push('…') =~= s.take(200) + "…"@);
    }
}

/// Control characters are shown as spaces, one for one.
pub proof fn controls_become_spaces(s: Seq<char>, i: int)
    requires
        0 <= i < s.len(),
    ensures
        without_controls(s).len() == s.len(),
        (s[i] as u32) < 32 || 127 <= s[i] as u32 <= 159 ==> without_controls(s)[i] == ' ',
        !((s[i] as u32) < 32 || 127 <= s[i] as u32 <= 159) ==> without_controls(s)[i] == s[i],
{
}

/// A flattened text has the same letters in the same order: nothing but white space is lost.
pub proof fn flattening_loses_no_letter(s: Seq<char>)
    ensures
        flattened(s).filter(|c: char| !is_space(c)) == s.filter(|c: char| !is_space(c)),
    decreases s.len(),
{
    let pred = |c: char| !is_space(c);
    reveal(Seq::filter);
    if s.len() > 0 {
        let front = s.drop_last();
        flattening_loses_no_letter(front);
        let rest = flattened(front);
        let all = flattened(s);
        if !is_space(s.last()) {
            if rest.len() > 0 && is_space(s[s.len() - 2]) {
                assert(all.drop_last() =~= rest.push(' '));
                assert(rest.push(' ').drop_last() =~= rest);
                assert(rest.push(' ').filter(pred) =~= rest.filter(pred));
            } else {
                assert(all.drop_last() =~= rest);
            }
        }
    }
}

/// Words with white space of any kind between them are words with one space between them.
pub proof fn words_stay_apart(a: Seq<char>, gap: Seq<char>, c: char)
    requires
        !is_space(c),
        gap.len() > 0,
        forall|i: int| 0 <= i < gap.len() ==> is_space(#[trigger] gap[i]),
    ensures
        flattened(a + gap) == flattened(a),
        flattened(a).len() > 0 ==> flattened((a + gap).push(c)) == flattened(a) + seq![' ', c],
    decreases gap.len(),
{
    let all = a + gap;
    let less = gap.drop_last();
    assert(all.drop_last() =~= a + less);
    assert(all.last() == gap.last());
    assert(is_space(gap[gap.len() - 1]));
    if less.len() > 0 {
        assert forall|i: int| 0 <= i < less.len() implies is_space(#[trigger] less[i]) by {
            assert(less[i] == gap[i]);
        }
        words_stay_apart(a, less, c);
    } else {
        assert(a + less =~= a);
    }
    let more = all.push(c);
    assert(more.drop_last() =~= all);
    assert(more[more.len() - 2] == gap.last());
    if flattened(a).len() > 0 {
        assert(flattened(all) == flattened(a));
        assert(flattened(more) == flattened(all).push(' ').push(c));
        assert(flattened(more) =~= flattened(a) + seq![' ', c]);
    }
}

/// Letters that follow a letter follow it in a flattened text.
pub proof fn words_stay_together(a: Seq<char>, b: char, c: char)
    requires
        !is_space(b),
        !is_space(c),
    ensures
        flattened(a.push(b).push(c)) == flattened(a.push(b)).push(c),
{
    let one = a.push(b);
    let two = one.push(c);
    assert(two.drop_last() =~= one);
    assert(two[two.len() - 2] == b);
}

/// Bytes are taken for text up to the first zero byte, which is no part of it.
pub proof fn text_ends_at_a_zero(a: Seq<u8>, b: Seq<u8>)
    requires
        forall|i: int| 0 <= i < a.len() ==> (#[trigger] a[i]) != 0,
    ensures
        before_zero(a) == a,
        before_zero(a.push(0) + b) == a,
        value_text(a.push(0) + b) == value_text(a),
{
    let all = a.push(0) + b;
    lemma_zero_from(a, 0);
    lemma_zero_from(all, 0);
    assert(all[a.len() as int] == 0);
    let k = zero_from(all, 0);
    if k < a.len() {
        assert(all[k] == a[k]);
    }
    let j = zero_from(a, 0);
    assert(j == a.len());
    assert(before_zero(all) =~= a);
    assert(before_zero(a) =~= a);
}

/// What a list of texts says is what each of them holds, in their order; and what is missing
/// says nothing.
pub proof fn list_says_what_its_texts_hold(list: Seq<String>, one: String)
    ensures
        views(list).len() == list.len(),
        forall|i: int| 0 <= i < list.len() ==> views(list)[i] == (#[trigger] list[i])@,
        said(Some(one)) == Some(one@),
        said(None) is None,
{
}

/// Texts are put together one behind the other, with what belongs between each two.
pub proof fn texts_are_put_together(list: Seq<Seq<char>>, next: Seq<char>, between: Seq<char>)
    ensures
        joined(Seq::empty(), between).len() == 0,
        joined(seq![next], between) == next,
        list.len() > 0 ==> joined(list.push(next), between) == joined(list, between) + between
            + next,
{
    assert(list.push(next).drop_last() =~= list);
}

} // verus!
