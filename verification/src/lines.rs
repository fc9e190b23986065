//! The lines that tell of a download, of the chosen settings and of the tools.
use crate::model;
use crate::model::{DownloadId, Facts, Format, Language, MediaInfo, Quality, SubLang};
use crate::ratio;
use crate::text;
use crate::units;
use vstd::prelude::*;

verus! {

/// How the folder for downloads is shown.
pub open spec fn folder_text(dir: Option<Seq<char>>) -> Seq<char> {
    match dir {
        Some(d) => d,
        None => "не выбрана"@,
    }
}

pub fn display_dir(dir: &Option<String>) -> (r: String)
    ensures
        r@ == folder_text(text::said(*dir)),
{
    match dir {
        Some(d) => d.clone(),
        None => "не выбрана".to_owned(),
    }
}

/// What is known of the version of a tool. Not to know it is not the same as to lack the tool.
#[derive(Debug)]
pub enum ToolVersion {
    Known(String),
    Unknown,
    Missing,
}

pub open spec fn version_words(version: ToolVersion) -> Seq<char> {
    match version {
        ToolVersion::Known(v) => v@,
        ToolVersion::Unknown => "версия неизвестна"@,
        ToolVersion::Missing => "не найден"@,
    }
}

pub fn version_line(name: &str, version: &ToolVersion) -> (r: String)
    ensures
        r@ == name@ + " — "@ + version_words(*version),
{
    let mut out = name.to_owned();
    out.append(" — ");
    match version {
        ToolVersion::Known(v) => out.append(v.as_str()),
        ToolVersion::Unknown => out.append("версия неизвестна"),
        ToolVersion::Missing => out.append("не найден"),
    }
    out
}

/// The line that names the versions of both tools.
pub fn tools_line(ytdlp: &ToolVersion, ffmpeg: &ToolVersion) -> (r: String)
    ensures
        r@ == "yt-dlp"@ + " — "@ + version_words(*ytdlp) + " · "@ + ("ffmpeg"@ + " — "@
            + version_words(*ffmpeg)),
{
    let mut out = version_line("yt-dlp", ytdlp);
    out.append(" · ");
    out.append(version_line("ffmpeg", ffmpeg).as_str());
    out
}

/// A line with one more part behind a separator; the first part stands alone.
pub open spec fn with_part(line: Seq<char>, part: Seq<char>) -> Seq<char> {
    if line.len() == 0 {
        part
    } else {
        line + " · "@ + part
    }
}

fn add_part(line: &mut String, part: &str)
    ensures
        final(line)@ == with_part(old(line)@, part@),
{
    if !line.as_str().is_empty() {
        line.append(" · ");
    }
    line.append(part);
    assert(line@ =~= with_part(old(line)@, part@));
}

/// What the folded settings hold that differs from the default.
pub open spec fn settings_text(
    section_broken: bool,
    section_set: bool,
    cookies: bool,
    lang: Language,
) -> Seq<char> {
    let first = if section_broken {
        "фрагмент задан неверно"@
    } else if section_set {
        "фрагмент"@
    } else {
        Seq::empty()
    };
    let second = if cookies {
        with_part(first, "вход на сайт"@)
    } else {
        first
    };
    match lang {
        Language::Code(code) => with_part(second, "субтитры: "@ + code),
        Language::Original => second,
    }
}

/// The title of the folded settings: what of them is set, or what they are where nothing is.
pub open spec fn settings_summary(
    section_broken: bool,
    section_set: bool,
    cookies: bool,
    lang: Language,
) -> Seq<char> {
    if !section_broken && !section_set && !cookies && lang is Original {
        "фрагмент, вход на сайт, язык субтитров"@
    } else {
        settings_text(section_broken, section_set, cookies, lang)
    }
}

pub fn advanced_summary(
    section_broken: bool,
    section_set: bool,
    cookies: bool,
    lang: &SubLang,
) -> (r: String)
    ensures
        r@ == settings_summary(section_broken, section_set, cookies, lang@),
{
    let mut out = String::new();
    if section_broken {
        add_part(&mut out, "фрагмент задан неверно");
    } else if section_set {
        add_part(&mut out, "фрагмент");
    }
    if cookies {
        add_part(&mut out, "вход на сайт");
    }
    match lang {
        SubLang::Code(code) => {
            let mut part = "субтитры: ".to_owned();
            part.append(code.as_str());
            add_part(&mut out, part.as_str());
        },
        SubLang::Original => {
            if !section_broken && !section_set && !cookies {
                return "фрагмент, вход на сайт, язык субтитров".to_owned();
            }
        },
    }
    out
}

/// How far a download is.
#[derive(Debug, Clone, Copy, PartialEq, Eq, Structural)]
pub struct Progress {
    pub download_id: DownloadId,
    pub downloaded: u64,
    /// Zero where the size is not known.
    pub total: u64,
    /// Bytes a second.
    pub speed_bps: Option<u64>,
    pub eta_secs: Option<u64>,
}

/// No progress yet.
pub open spec fn no_progress() -> Progress {
    Progress {
        download_id: model::NO_DOWNLOAD,
        downloaded: 0,
        total: 0,
        speed_bps: None,
        eta_secs: None,
    }
}

impl Default for Progress {
    fn default() -> (r: Progress)
        ensures
            r == no_progress(),
    {
        Progress {
            download_id: model::NO_DOWNLOAD,
            downloaded: 0,
            total: 0,
            speed_bps: None,
            eta_secs: None,
        }
    }
}

/// How much of a download is there, in whole percent as single precision has it; a hundred
/// where nothing is missing.
pub open spec fn percent(p: Progress) -> nat {
    if p.downloaded >= p.total {
        100
    } else {
        ratio::single_percent(p.downloaded as nat, p.total as nat)
    }
}

/// The line below the progress bar: what is being done, how much of it is there, how fast it
/// goes and how long it will take, as far as each is known.
pub open spec fn progress_text(stage: Seq<char>, p: Progress) -> Seq<char> {
    let share = if p.total > 0 {
        with_part(
            with_part(stage, text::decimal(percent(p)).push('%')),
            units::size(p.downloaded as nat) + " из "@ + units::size(p.total as nat),
        )
    } else {
        stage
    };
    let speed = match p.speed_bps {
        Some(bps) => with_part(share, units::size(bps as nat) + "/с"@),
        None => share,
    };
    match p.eta_secs {
        Some(secs) => with_part(speed, "осталось "@ + units::duration(secs as nat)),
        None => speed,
    }
}

pub fn progress_line(stage: &str, p: Progress) -> (r: String)
    ensures
        r@ == progress_text(stage@, p),
{
    let mut out = stage.to_owned();
    if p.total > 0 {
        let share: u64 = if p.downloaded >= p.total {
            100
        } else {
            ratio::single_percent_of(p.downloaded, p.total)
        };
        let mut part = text::decimal_text(share);
        part.push('%');
        add_part(&mut out, part.as_str());
        let mut sizes = units::human_bytes(p.downloaded);
        sizes.append(" из ");
        sizes.append(units::human_bytes(p.total).as_str());
        add_part(&mut out, sizes.as_str());
    }
    if let Some(bps) = p.speed_bps {
        let mut part = units::human_bytes(bps);
        part.append("/с");
        add_part(&mut out, part.as_str());
    }
    if let Some(secs) = p.eta_secs {
        let mut part = "осталось ".to_owned();
        part.append(units::human_duration(secs).as_str());
        add_part(&mut out, part.as_str());
    }
    out
}

/// The line below the title: who made it, how long it is and how high it goes.
pub open spec fn facts_text(info: Option<Facts>) -> Seq<char> {
    match info {
        None => Seq::empty(),
        Some(f) => {
            let who = match f.uploader {
                Some(name) => name,
                None => Seq::empty(),
            };
            let long = match f.duration_secs {
                Some(secs) => with_part(who, units::duration(secs as nat)),
                None => who,
            };
            match f.max_height() {
                Some(h) => with_part(long, "до "@ + text::decimal(h as nat) + "p"@),
                None => long,
            }
        },
    }
}

pub fn meta_line(info: &Option<MediaInfo>) -> (r: String)
    ensures
        r@ == facts_text(model::facts(*info)),
{
    let info = match info {
        Some(info) => info,
        None => return String::new(),
    };
    let mut out = match &info.uploader {
        Some(name) => name.clone(),
        None => String::new(),
    };
    if let Some(secs) = info.duration_secs {
        add_part(&mut out, units::human_duration(secs).as_str());
    }
    if let Some(h) = info.max_height() {
        let mut part = "до ".to_owned();
        part.append(text::decimal_text(h as u64).as_str());
        part.append("p");
        add_part(&mut out, part.as_str());
    }
    out
}

/// What is said where a video is asked for in more than the site offers.
pub open spec fn quality_words(format: Format, quality: Quality, info: Option<Facts>) -> Seq<char> {
    match (quality.height(), info) {
        (Some(want), Some(f)) => match f.max_height() {
            Some(have) => if format == Format::Mp4 && want > have {
                "Выше "@ + text::decimal(have as nat) + "p этот ролик не отдают — скачается "@
                    + text::decimal(have as nat) + "p."@
            } else {
                Seq::empty()
            },
            None => Seq::empty(),
        },
        _ => Seq::empty(),
    }
}

pub fn quality_note(format: Format, quality: Quality, info: &Option<MediaInfo>) -> (r: String)
    ensures
        r@ == quality_words(format, quality, model::facts(*info)),
{
    let have: Option<u32> = match info {
        Some(info) => info.max_height(),
        None => None,
    };
    match (quality.max_height(), have) {
        (Some(want), Some(have)) => if format == Format::Mp4 && want > have {
            let height = text::decimal_text(have as u64);
            let mut out = "Выше ".to_owned();
            out.append(height.as_str());
            out.append("p этот ролик не отдают — скачается ");
            out.append(height.as_str());
            out.append("p.");
            out
        } else {
            String::new()
        },
        _ => String::new(),
    }
}

/// How the chosen language of the subtitles is shown: by the name that the site gives it, or
/// by its code.
pub open spec fn language_text(lang: Language, info: Option<Facts>) -> Seq<char> {
    match lang {
        Language::Original => "Язык ролика"@,
        Language::Code(code) => match info {
            Some(f) => match model::track_label(f.subtitle_tracks, code, 0) {
                Some(name) => name,
                None => code,
            },
            None => code,
        },
    }
}

pub fn sub_lang_label(lang: &SubLang, info: &Option<MediaInfo>) -> (r: String)
    ensures
        r@ == language_text(lang@, model::facts(*info)),
{
    match lang {
        SubLang::Original => "Язык ролика".to_owned(),
        SubLang::Code(code) => {
            if let Some(info) = info {
                if let Some(name) = info.subtitle_label(code.as_str()) {
                    return name;
                }
            }
            code.clone()
        },
    }
}

/// The line below the bar tells, as far as each is known, what is being done, the share and how
/// much of how much is there, the speed and the time that is left, in this order and with a dot
/// between each two.
pub proof fn progress_tells_share_size_speed_and_time(stage: Seq<char>, p: Progress)
    requires
        stage.len() > 0,
    ensures
        ({
            let share = if p.downloaded >= p.total {
                100
            } else {
                ratio::single_percent(p.downloaded as nat, p.total as nat)
            };
            let sizes = if p.total == 0 {
                Seq::empty()
            } else {
                " · "@ + text::decimal(share) + "%"@ + " · "@ + units::size(p.downloaded as nat)
                    + " из "@ + units::size(p.total as nat)
            };
            let speed = if p.speed_bps is Some {
                " · "@ + units::size(p.speed_bps->0 as nat) + "/с"@
            } else {
                Seq::empty()
            };
            let time = if p.eta_secs is Some {
                " · "@ + "осталось "@ + units::duration(p.eta_secs->0 as nat)
            } else {
                Seq::empty()
            };
            progress_text(stage, p) == stage + sizes + speed + time
        }),
{
    reveal_strlit("%");
    assert("%"@ =~= seq!['%']);
    let share = percent(p);
    let sizes = if p.total == 0 {
        Seq::empty()
    } else {
        " · "@ + text::decimal(share) + "%"@ + " · "@ + units::size(p.downloaded as nat)
            + " из "@ + units::size(p.total as nat)
    };
    let told = units::size(p.downloaded as nat) + " из "@ + units::size(p.total as nat);
    let one = stage + " · "@ + text::decimal(share).push('%');
    let first = if p.total > 0 {
        one + " · "@ + told
    } else {
        stage
    };
    if p.total > 0 {
        assert(one.len() > 0);
        assert(first =~= stage + sizes);
    } else {
        assert(stage + sizes =~= stage);
    }
    assert(first == stage + sizes);
    let speed = if p.speed_bps is Some {
        " · "@ + units::size(p.speed_bps->0 as nat) + "/с"@
    } else {
        Seq::empty()
    };
    let second = first + speed;
    if p.speed_bps is Some {
        assert(with_part(first, units::size(p.speed_bps->0 as nat) + "/с"@) =~= second);
    } else {
        assert(second =~= first);
    }
    if p.eta_secs is Some {
        let time = "осталось "@ + units::duration(p.eta_secs->0 as nat);
        assert(with_part(second, time) =~= second + (" · "@ + "осталось "@ + units::duration(
            p.eta_secs->0 as nat,
        )));
    } else {
        assert(second + Seq::empty() =~= second);
    }
}

/// The share in percent is that of the bytes: less than one percent off, a hundred where nothing
/// is missing, and never more.
pub proof fn share_is_of_the_bytes(p: Progress)
    requires
        p.total > 0,
    ensures
        percent(p) <= 100,
        p.downloaded >= p.total ==> percent(p) == 100,
        p.downloaded < p.total ==> percent(p) * p.total < 100 * p.downloaded + p.total && 100
            * p.downloaded < percent(p) * p.total + p.total,
        p.downloaded == 0 ==> percent(p) == 0,
{
    if p.downloaded < p.total {
        ratio::percent_is_of_the_share(p.downloaded, p.total);
    }
}

/// The line below the title tells who made a recording, how long it is and how high it goes, as
/// far as each is known.
pub proof fn facts_tell_maker_length_and_height(f: Facts)
    ensures
        facts_text(None).len() == 0,
        f.uploader is Some && f.uploader->0.len() > 0 && f.duration_secs is Some
            && f.max_height() is Some ==> facts_text(Some(f)) == f.uploader->0 + " · "@
            + units::duration(f.duration_secs->0 as nat) + " · "@ + ("до "@ + text::decimal(
            f.max_height()->0 as nat,
        ) + "p"@),
        f.uploader is None && f.duration_secs is Some && f.max_height() is None ==> facts_text(
            Some(f),
        ) == units::duration(f.duration_secs->0 as nat),
        f.uploader is None && f.duration_secs is None && f.max_height() is Some ==> facts_text(
            Some(f),
        ) == "до "@ + text::decimal(f.max_height()->0 as nat) + "p"@,
        f.uploader is Some && f.duration_secs is None && f.max_height() is None ==> facts_text(
            Some(f),
        ) == f.uploader->0,
{
}

/// That a video is not to be had as high as was asked for is said exactly where it is so.
pub proof fn lesser_height_is_told(format: Format, quality: Quality, f: Facts, have: u32)
    requires
        f.max_height() == Some(have),
    ensures
        format == Format::Mp3 ==> quality_words(format, quality, Some(f)).len() == 0,
        quality == Quality::Best ==> quality_words(format, quality, Some(f)).len() == 0,
        quality_words(format, quality, None).len() == 0,
        format == Format::Mp4 && (quality == Quality::P2160 && have < 2160 || quality
            == Quality::P1440 && have < 1440 || quality == Quality::P1080 && have < 1080 || quality
            == Quality::P720 && have < 720 || quality == Quality::P480 && have < 480)
            ==> quality_words(format, quality, Some(f)) == "Выше "@ + text::decimal(have as nat)
            + "p этот ролик не отдают — скачается "@ + text::decimal(have as nat) + "p."@,
        quality == Quality::P2160 && have >= 2160 || quality == Quality::P1440 && have >= 1440
            || quality == Quality::P1080 && have >= 1080 || quality == Quality::P720 && have >= 720
            || quality == Quality::P480 && have >= 480 ==> quality_words(
            format,
            quality,
            Some(f),
        ).len() == 0,
{
}

/// The language of the subtitles is shown as that of the recording, or by the name that the site
/// gives it, or by its code.
pub proof fn language_is_shown_by_its_name(code: Seq<char>, f: Facts)
    ensures
        language_text(Language::Original, Some(f)) == "Язык ролика"@,
        language_text(Language::Original, None) == "Язык ролика"@,
        language_text(Language::Code(code), None) == code,
        model::track_label(f.subtitle_tracks, code, 0) is Some ==> language_text(
            Language::Code(code),
            Some(f),
        ) == model::track_label(f.subtitle_tracks, code, 0)->0,
        model::track_label(f.subtitle_tracks, code, 0) is None ==> language_text(
            Language::Code(code),
            Some(f),
        ) == code,
{
}

/// A version is told where it is known; not to know it is not to lack the tool. A folder that
/// was not chosen is said to be none.
pub proof fn versions_and_folders_are_told(v: String, dir: Seq<char>)
    ensures
        version_words(ToolVersion::Known(v)) == v@,
        version_words(ToolVersion::Unknown) == "версия неизвестна"@,
        version_words(ToolVersion::Missing) == "не найден"@,
        folder_text(Some(dir)) == dir,
        folder_text(None) == "не выбрана"@,
{
}

/// The title of the folded settings names what of them is set, in its order, and what they are
/// where nothing is.
pub proof fn folded_settings_are_named(code: Seq<char>, cookies: bool, set: bool)
    ensures
        settings_summary(false, false, false, Language::Original)
            == "фрагмент, вход на сайт, язык субтитров"@,
        settings_summary(true, set, false, Language::Original) == "фрагмент задан неверно"@,
        settings_summary(false, true, false, Language::Original) == "фрагмент"@,
        settings_summary(false, false, true, Language::Original) == "вход на сайт"@,
        settings_summary(false, false, false, Language::Code(code)) == "субтитры: "@ + code,
        settings_summary(false, true, true, Language::Original) == "фрагмент"@ + " · "@
            + "вход на сайт"@,
        settings_summary(true, set, true, Language::Code(code)) == "фрагмент задан неверно"@
            + " · "@ + "вход на сайт"@ + " · "@ + ("субтитры: "@ + code),
        settings_summary(false, true, false, Language::Code(code)) == "фрагмент"@ + " · "@ + (
        "субтитры: "@ + code),
{
    reveal_strlit("фрагмент задан неверно");
    reveal_strlit("фрагмент");
    reveal_strlit("вход на сайт");
    assert("фрагмент задан неверно"@.len() > 0 && "фрагмент"@.len() > 0 && "вход на сайт"@.len()
        > 0);
    assert(("фрагмент задан неверно"@ + " · "@ + "вход на сайт"@).len() > 0);
}

} // verus!
