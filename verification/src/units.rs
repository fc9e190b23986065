//! Quantities the way a person reads them.
use crate::ratio;
use crate::text;
use vstd::prelude::*;

verus! {

/// A length of time: hours where there are any, minutes, seconds.
pub open spec fn duration(secs: nat) -> Seq<char> {
    let tail = text::padded(secs % 60, 2);
    if secs < 3600 {
        text::decimal(secs / 60).push(':') + tail
    } else {
        text::decimal(secs / 3600).push(':') + text::padded(secs / 60 % 60, 2).push(':') + tail
    }
}

pub fn human_duration(secs: u64) -> (r: String)
    ensures
        r@ == duration(secs as nat),
{
    let tail = text::padded_text(secs % 60, 2);
    let mut out: String;
    if secs < 3600 {
        out = text::decimal_text(secs / 60);
    } else {
        out = text::decimal_text(secs / 3600);
        out.push(':');
        out.append(text::padded_text(secs / 60 % 60, 2).as_str());
    }
    out.push(':');
    out.append(tail.as_str());
    assert(out@ =~= duration(secs as nat));
    out
}

/// How many of the steps of 1024 a size takes, up to four.
pub open spec fn size_step(n: nat) -> nat {
    if n < 0x400 {
        0
    } else if n < 0x10_0000 {
        1
    } else if n < 0x4000_0000 {
        2
    } else if n < 0x100_0000_0000 {
        3
    } else {
        4
    }
}

/// The size that one unit of a step stands for.
pub open spec fn step_size(step: nat) -> nat {
    if step == 0 {
        1
    } else if step == 1 {
        0x400
    } else if step == 2 {
        0x10_0000
    } else if step == 3 {
        0x4000_0000
    } else {
        0x100_0000_0000
    }
}

pub open spec fn step_name(step: nat) -> Seq<char> {
    if step == 0 {
        " Б"@
    } else if step == 1 {
        " КБ"@
    } else if step == 2 {
        " МБ"@
    } else if step == 3 {
        " ГБ"@
    } else {
        " ТБ"@
    }
}

/// A number of tenths, with one digit behind the point.
pub open spec fn tenths(t: nat) -> Seq<char> {
    text::decimal(t / 10).push('.') + text::decimal(t % 10)
}

/// A size: whole bytes below a kilobyte, else one digit behind the point.
pub open spec fn size(n: nat) -> Seq<char> {
    let step = size_step(n);
    if step == 0 {
        text::decimal(n) + step_name(0)
    } else {
        tenths(ratio::round_even(n * 10, step_size(step))) + step_name(step)
    }
}

pub fn human_bytes(n: u64) -> (r: String)
    ensures
        r@ == size(n as nat),
{
    if n < 0x400 {
        let mut out = text::decimal_text(n);
        out.append(" Б");
        return out;
    }
    let (unit, name): (u64, &str) = if n < 0x10_0000 {
        (0x400, " КБ")
    } else if n < 0x4000_0000 {
        (0x10_0000, " МБ")
    } else if n < 0x100_0000_0000 {
        (0x4000_0000, " ГБ")
    } else {
        (0x100_0000_0000, " ТБ")
    };
    let t = ratio::round_even_of(n as u128 * 10, unit as u128);
    let mut out = text::decimal_text((t / 10) as u64);
    out.push('.');
    out.append(text::decimal_text((t % 10) as u64).as_str());
    out.append(name);
    assert(out@ =~= size(n as nat));
    out
}

/// The form of a Russian word that goes with a number.
pub open spec fn word_form(n: nat, one: Seq<char>, few: Seq<char>, many: Seq<char>) -> Seq<char> {
    if 11 <= n % 100 <= 14 {
        many
    } else if n % 10 == 1 {
        one
    } else if 2 <= n % 10 <= 4 {
        few
    } else {
        many
    }
}

/// A number with the form of a word that goes with it.
pub open spec fn counted(n: nat, one: Seq<char>, few: Seq<char>, many: Seq<char>) -> Seq<char> {
    text::decimal(n).push(' ') + word_form(n, one, few, many)
}

pub fn counted_text(n: u64, one: &str, few: &str, many: &str) -> (r: String)
    ensures
        r@ == counted(n as nat, one@, few@, many@),
{
    let mut out = text::decimal_text(n);
    out.push(' ');
    let word: &str = if 11 <= n % 100 && n % 100 <= 14 {
        many
    } else if n % 10 == 1 {
        one
    } else if 2 <= n % 10 && n % 10 <= 4 {
        few
    } else {
        many
    };
    out.append(word);
    out
}

pub open spec fn days(n: nat) -> Seq<char> {
    counted(n, "день"@, "дня"@, "дней"@)
}

pub open spec fn hours(n: nat) -> Seq<char> {
    counted(n, "час"@, "часа"@, "часов"@)
}

pub open spec fn minutes(n: nat) -> Seq<char> {
    counted(n, "минута"@, "минуты"@, "минут"@)
}

/// How long a machine has been running: days and hours, or hours and minutes, or minutes.
pub open spec fn uptime(secs: nat) -> Seq<char> {
    let d = secs / 86400;
    let h = secs / 3600 % 24;
    let m = secs / 60 % 60;
    if d > 0 {
        if h > 0 {
            days(d).push(' ') + hours(h)
        } else {
            days(d)
        }
    } else if h > 0 {
        if m > 0 {
            hours(h).push(' ') + minutes(m)
        } else {
            hours(h)
        }
    } else {
        minutes(m)
    }
}

pub fn human_uptime(secs: u64) -> (r: String)
    ensures
        r@ == uptime(secs as nat),
{
    let d = secs / 86400;
    let h = secs / 3600 % 24;
    let m = secs / 60 % 60;
    if d > 0 {
        let mut out = counted_text(d, "день", "дня", "дней");
        if h > 0 {
            out.push(' ');
            out.append(counted_text(h, "час", "часа", "часов").as_str());
        }
        out
    } else if h > 0 {
        let mut out = counted_text(h, "час", "часа", "часов");
        if m > 0 {
            out.push(' ');
            out.append(counted_text(m, "минута", "минуты", "минут").as_str());
        }
        out
    } else {
        counted_text(m, "минута", "минуты", "минут")
    }
}

/// A frequency: megahertz below a thousand of them, else gigahertz to two places. Zero means
/// that the frequency is not known.
pub open spec fn frequency(mhz: nat) -> Option<Seq<char>> {
    if mhz == 0 {
        None
    } else if mhz < 1000 {
        Some(text::decimal(mhz) + " МГц"@)
    } else {
        let t = ratio::round_even(mhz, 10);
        Some(text::decimal(t / 100).push('.') + text::padded(t % 100, 2) + " ГГц"@)
    }
}

pub fn human_mhz(mhz: u64) -> (r: Option<String>)
    ensures
        text::said(r) == frequency(mhz as nat),
{
    if mhz == 0 {
        return None;
    }
    if mhz < 1000 {
        let mut out = text::decimal_text(mhz);
        out.append(" МГц");
        return Some(out);
    }
    let t = ratio::round_even_of(mhz as u128, 10);
    let mut out = text::decimal_text((t / 100) as u64);
    out.push('.');
    out.append(text::padded_text((t % 100) as u64, 2).as_str());
    out.append(" ГГц");
    Some(out)
}

/// A version of USB from its binary-coded field: two digits of the version, one of the
/// revision, and one more that is left out where it is zero.
pub open spec fn usb_text(field: u16) -> Seq<char> {
    let major = field / 0x1000 * 10 + field / 0x100 % 16;
    let short = text::decimal(major as nat).push('.') + text::decimal((field / 16 % 16) as nat);
    if field % 16 == 0 {
        short
    } else {
        short.push('.') + text::decimal((field % 16) as nat)
    }
}

pub fn usb_version(field: u16) -> (r: String)
    ensures
        r@ == usb_text(field),
{
    let major: u64 = field as u64 / 0x1000 * 10 + field as u64 / 0x100 % 16;
    let mut out = text::decimal_text(major);
    out.push('.');
    out.append(text::decimal_text((field / 16 % 16) as u64).as_str());
    if field % 16 != 0 {
        out.push('.');
        out.append(text::decimal_text((field % 16) as u64).as_str());
    }
    out
}

/// A size below 1024 is told in bytes; one above in the greatest unit that it holds at least
/// one of, to the nearest tenth of that unit.
pub proof fn sizes_are_told_to_a_tenth(n: nat)
    ensures
        n < 1024 ==> size(n) == text::decimal(n) + " Б"@,
        1024 <= n < 1048576 ==> is_size(n, 1024, " КБ"@),
        1048576 <= n < 1073741824 ==> is_size(n, 1048576, " МБ"@),
        1073741824 <= n < 1099511627776 ==> is_size(n, 1073741824, " ГБ"@),
        n >= 1099511627776 ==> is_size(n, 1099511627776, " ТБ"@),
{
    if n >= 1024 {
        let unit = step_size(size_step(n));
        ratio::rounding_gives_the_nearest(n * 10, unit);
        reveal_strlit(".");
        assert("."@ =~= seq!['.']);
        let t = ratio::round_even(n * 10, unit);
        assert(told_in_tenths(t, size(n), step_name(size_step(n)))) by {
            assert(size(n) =~= text::decimal(t / 10) + "."@ + text::decimal(t % 10) + step_name(
                size_step(n),
            ));
        }
    }
}

/// Whether a text tells a number of tenths, in a unit.
pub open spec fn told_in_tenths(t: nat, s: Seq<char>, name: Seq<char>) -> bool {
    s == text::decimal(t / 10) + "."@ + text::decimal(t % 10) + name
}

/// Whether a size is told in a unit of so many bytes, to the nearest tenth.
pub open spec fn is_size(n: nat, unit: nat, name: Seq<char>) -> bool {
    exists|t: nat|
        {
            &&& #[trigger] told_in_tenths(t, size(n), name)
            &&& 2 * (10 * n - t * unit) <= unit
            &&& 2 * (t * unit - 10 * n) <= unit
        }
}

/// A length of time is told by its seconds, its minutes, and its hours where it has any, the
/// parts behind the first in two digits.
pub proof fn lengths_are_told_by_their_parts(h: nat, m: nat, s: nat)
    requires
        m < 60,
        s < 60,
    ensures
        duration(60 * m + s) == text::decimal(m) + ":"@ + text::padded(s, 2),
        h > 0 ==> duration(3600 * h + 60 * m + s) == text::decimal(h) + ":"@ + text::padded(m, 2)
            + ":"@ + text::padded(s, 2),
{
    reveal_strlit(":");
    assert(":"@ =~= seq![':']);
    assert((60 * m + s) / 60 == m && (60 * m + s) % 60 == s);
    assert(duration(60 * m + s) =~= text::decimal(m) + ":"@ + text::padded(s, 2));
    if h > 0 {
        let all = 3600 * h + 60 * m + s;
        assert(all / 3600 == h && all / 60 % 60 == m && all % 60 == s);
        assert(duration(all) =~= text::decimal(h) + ":"@ + text::padded(m, 2) + ":"@
            + text::padded(s, 2));
    }
}

proof fn lemma_parts_of_a_time(d: nat, h: nat, m: nat, s: nat)
    requires
        h < 24,
        m < 60,
        s < 60,
    ensures
        (86400 * d + 3600 * h + 60 * m + s) / 86400 == d,
        (86400 * d + 3600 * h + 60 * m + s) / 3600 % 24 == h,
        (86400 * d + 3600 * h + 60 * m + s) / 60 % 60 == m,
{
    let secs = 86400 * d + 3600 * h + 60 * m + s;
    assert(secs / 86400 == d);
    assert(secs / 3600 == 24 * d + h);
    assert((24 * d + h) % 24 == h);
    assert(secs / 60 == 1440 * d + 60 * h + m);
    assert((1440 * d + 60 * h + m) % 60 == m);
}

/// How long a machine has been running is told by the two greatest parts that are not zero:
/// days and hours, hours and minutes, minutes.
pub proof fn running_time_is_told_by_its_greatest_parts(d: nat, h: nat, m: nat, s: nat)
    requires
        h < 24,
        m < 60,
        s < 60,
    ensures
        ({
            let all = uptime(86400 * d + 3600 * h + 60 * m + s);
            let days = counted(d, "день"@, "дня"@, "дней"@);
            let hours = counted(h, "час"@, "часа"@, "часов"@);
            let minutes = counted(m, "минута"@, "минуты"@, "минут"@);
            &&& d > 0 && h > 0 ==> all == days + " "@ + hours
            &&& d > 0 && h == 0 ==> all == days
            &&& d == 0 && h > 0 && m > 0 ==> all == hours + " "@ + minutes
            &&& d == 0 && h > 0 && m == 0 ==> all == hours
            &&& d == 0 && h == 0 ==> all == minutes
        }),
{
    reveal_strlit(" ");
    assert(" "@ =~= seq![' ']);
    let secs = 86400 * d + 3600 * h + 60 * m + s;
    assert(secs / 86400 == d && secs / 3600 % 24 == h && secs / 60 % 60 == m) by {
        lemma_parts_of_a_time(d, h, m, s);
    }
    let days = counted(d, "день"@, "дня"@, "дней"@);
    let hours = counted(h, "час"@, "часа"@, "часов"@);
    let minutes = counted(m, "минута"@, "минуты"@, "минут"@);
    assert(days.push(' ') + hours =~= days + " "@ + hours);
    assert(hours.push(' ') + minutes =~= hours + " "@ + minutes);
}

/// A number goes with the form of a word that Russian has for it: by its last digit, but for
/// those that end in 11 to 14.
pub proof fn words_go_with_numbers(n: nat, one: Seq<char>, few: Seq<char>, many: Seq<char>)
    ensures
        n % 100 == 11 || n % 100 == 12 || n % 100 == 13 || n % 100 == 14 ==> counted(
            n,
            one,
            few,
            many,
        ) == text::decimal(n) + " "@ + many,
        n % 10 == 1 && n % 100 != 11 ==> counted(n, one, few, many) == text::decimal(n) + " "@
            + one,
        (n % 10 == 2 && n % 100 != 12) || (n % 10 == 3 && n % 100 != 13) || (n % 10 == 4 && n % 100
            != 14) ==> counted(n, one, few, many) == text::decimal(n) + " "@ + few,
        n % 10 == 0 || n % 10 >= 5 ==> counted(n, one, few, many) == text::decimal(n) + " "@
            + many,
{
    reveal_strlit(" ");
    assert(" "@ =~= seq![' ']);
    assert(text::decimal(n).push(' ') =~= text::decimal(n) + " "@);
    assert(n % 100 % 10 == n % 10);
}

/// A frequency from a thousand megahertz on is told in gigahertz, to the nearest hundredth; one
/// below in megahertz; and zero is no frequency.
pub proof fn frequencies_are_told_to_a_hundredth(mhz: nat)
    ensures
        frequency(0) is None,
        0 < mhz < 1000 ==> frequency(mhz) == Some(text::decimal(mhz) + " МГц"@),
        mhz >= 1000 ==> frequency(mhz) is Some && exists|t: nat|
            #[trigger] told_in_hundredths(t, frequency(mhz)->0) && 2 * (10 * t - mhz) <= 10 && 2 * (
            mhz - 10 * t) <= 10,
{
    if mhz >= 1000 {
        let t = ratio::round_even(mhz, 10);
        ratio::rounding_gives_the_nearest(mhz, 10);
        reveal_strlit(".");
        assert("."@ =~= seq!['.']);
        assert(frequency(mhz)->0 =~= text::decimal(t / 100) + "."@ + text::padded(t % 100, 2)
            + " ГГц"@);
        assert(told_in_hundredths(t, frequency(mhz)->0));
    }
}

/// Whether a text tells a number of hundredths, in gigahertz.
pub open spec fn told_in_hundredths(t: nat, s: Seq<char>) -> bool {
    s == text::decimal(t / 100) + "."@ + text::padded(t % 100, 2) + " ГГц"@
}

/// A version of USB is told by the digits of its field: 0x0210 is 2.1, 0x0201 is 2.0.1.
pub proof fn version_is_told_by_its_digits(a: u16, b: u16, c: u16, e: u16)
    requires
        a < 16,
        b < 16,
        c < 16,
        0 < e < 16,
    ensures
        usb_text((4096 * a + 256 * b + 16 * c) as u16) == text::decimal((10 * a + b) as nat) + "."@
            + text::decimal(c as nat),
        usb_text((4096 * a + 256 * b + 16 * c + e) as u16) == text::decimal((10 * a + b) as nat)
            + "."@ + text::decimal(c as nat) + "."@ + text::decimal(e as nat),
{
    reveal_strlit(".");
    assert("."@ =~= seq!['.']);
    let f: u16 = (4096 * a + 256 * b + 16 * c) as u16;
    let g: u16 = (4096 * a + 256 * b + 16 * c + e) as u16;
    assert(f / 0x1000 == a && f / 0x100 % 16 == b && f / 16 % 16 == c && f % 16 == 0);
    assert(g / 0x1000 == a && g / 0x100 % 16 == b && g / 16 % 16 == c && g % 16 == e);
    assert(usb_text(f) =~= text::decimal((10 * a + b) as nat) + "."@ + text::decimal(c as nat));
    assert(usb_text(g) =~= text::decimal((10 * a + b) as nat) + "."@ + text::decimal(c as nat)
        + "."@ + text::decimal(e as nat));
}

} // verus!
