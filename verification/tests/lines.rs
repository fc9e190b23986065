//! The lines that are put together for the screen.
use savio::lines::{
    advanced_summary, display_dir, meta_line, progress_line, quality_note, sub_lang_label, tools_line,
    version_line, Progress, ToolVersion,
};
use savio::model::{Format, MediaInfo, Quality, SubLang, SubtitleRow, SubtitleTrack};
use savio::ratio::single_percent_of;

#[test]
fn a_folded_group_admits_what_it_hides() {
    assert_eq!(
        advanced_summary(false, true, false, &SubLang::Original),
        "фрагмент"
    );
    assert_eq!(
        advanced_summary(true, false, false, &SubLang::Original),
        "фрагмент задан неверно"
    );
    assert_eq!(
        advanced_summary(false, false, true, &SubLang::Original),
        "вход на сайт"
    );
    assert_eq!(
        advanced_summary(false, false, false, &SubLang::Code("ru".to_owned())),
        "субтитры: ru"
    );
    assert_eq!(
        advanced_summary(false, true, true, &SubLang::Code("de".to_owned())),
        "фрагмент · вход на сайт · субтитры: de"
    );
}

#[test]
fn an_untouched_group_lists_what_lies_inside() {
    assert_eq!(
        advanced_summary(false, false, false, &SubLang::Original),
        "фрагмент, вход на сайт, язык субтитров"
    );
}

#[test]
fn versions_are_named_or_their_lack_is() {
    let known = ToolVersion::Known("2024.08.06".to_owned());
    assert_eq!(version_line("yt-dlp", &known), "yt-dlp — 2024.08.06");
    assert_eq!(
        version_line("ffmpeg", &ToolVersion::Unknown),
        "ffmpeg — версия неизвестна"
    );
    assert_eq!(
        tools_line(&known, &ToolVersion::Missing),
        "yt-dlp — 2024.08.06 · ffmpeg — не найден"
    );
}

#[test]
fn progress_tells_only_what_is_known() {
    let mut p = Progress::default();
    assert_eq!(progress_line("Загрузка", p), "Загрузка");
    p.downloaded = 1536;
    p.total = 2048;
    assert_eq!(
        progress_line("Загрузка", p),
        "Загрузка · 75% · 1.5 КБ из 2.0 КБ"
    );
    p.speed_bps = Some(1024 * 1024);
    p.eta_secs = Some(65);
    assert_eq!(
        progress_line("Загрузка", p),
        "Загрузка · 75% · 1.5 КБ из 2.0 КБ · 1.0 МБ/с · осталось 1:05"
    );
    p.downloaded = 5000;
    assert!(progress_line("Загрузка", p).contains("100%"));
}

fn seen() -> MediaInfo {
    MediaInfo {
        title: Some("Ролик".to_owned()),
        uploader: Some("Автор".to_owned()),
        duration_secs: Some(3725),
        heights: vec![360, 720, 480],
        subtitle_tracks: vec![
            SubtitleTrack {
                code: "ru".to_owned(),
                label: "Русский".to_owned(),
                auto: false,
            },
            SubtitleTrack {
                code: "de".to_owned(),
                label: "Deutsch".to_owned(),
                auto: true,
            },
            SubtitleTrack {
                code: "en".to_owned(),
                label: "English".to_owned(),
                auto: true,
            },
        ],
    }
}

#[test]
fn the_facts_are_shown_on_one_line() {
    assert_eq!(meta_line(&None), "");
    let line = meta_line(&Some(seen()));
    assert_eq!(line, "Автор · 1:02:05 · до 720p");
}

#[test]
fn more_than_is_offered_is_spoken_of() {
    let info = Some(seen());
    assert_eq!(
        quality_note(Format::Mp4, Quality::P1080, &info),
        "Выше 720p этот ролик не отдают — скачается 720p."
    );
    assert_eq!(quality_note(Format::Mp4, Quality::P720, &info), "");
    assert_eq!(quality_note(Format::Mp3, Quality::P1080, &info), "");
    assert_eq!(quality_note(Format::Mp4, Quality::Best, &info), "");
    assert_eq!(quality_note(Format::Mp4, Quality::P1080, &None), "");
}

#[test]
fn a_language_is_shown_by_its_name_or_by_its_code() {
    let info = Some(seen());
    assert_eq!(sub_lang_label(&SubLang::Original, &info), "Язык ролика");
    assert_eq!(
        sub_lang_label(&SubLang::Code("ru".to_owned()), &info),
        "Русский"
    );
    assert_eq!(
        sub_lang_label(&SubLang::Code("fr".to_owned()), &info),
        "fr"
    );
    assert_eq!(sub_lang_label(&SubLang::Code("ru".to_owned()), &None), "ru");
}

#[test]
fn languages_stand_below_the_heading_of_their_kind() {
    assert_eq!(
        seen().subtitle_rows(true),
        vec![
            SubtitleRow::Heading(false),
            SubtitleRow::Track(0),
            SubtitleRow::Heading(true),
            SubtitleRow::Track(1),
            SubtitleRow::Track(2),
        ]
    );
    assert_eq!(
        seen().subtitle_rows(false),
        vec![SubtitleRow::Heading(false), SubtitleRow::Track(0)]
    );
    assert!(MediaInfo::default().subtitle_rows(true).is_empty());
}

#[test]
fn a_folder_that_was_not_chosen_is_named_as_such() {
    assert_eq!(display_dir(&Some("/дом/видео".to_owned())), "/дом/видео");
    assert_eq!(display_dir(&None), "не выбрана");
}

#[test]
fn a_share_is_rounded_as_single_precision_has_it() {
    let p = Progress {
        downloaded: 29_999_999,
        total: 2_000_000_000,
        ..Progress::default()
    };
    assert!(progress_line("", p).starts_with("2%"), "{}", progress_line("", p));

    let sizes: [u64; 16] = [
        1,
        2,
        3,
        7,
        199,
        200,
        1_000,
        65_537,
        16_777_215,
        16_777_217,
        16_777_219,
        2_000_000_000,
        4_294_967_295,
        999_999_999_999,
        1 << 53,
        u64::MAX,
    ];
    for total in sizes {
        for part in 0..400 {
            for near in [0, 1, 2] {
                let downloaded = (total as u128 * part / 400) as u64 + near;
                if downloaded < total {
                    let share = downloaded as f32 / total as f32;
                    assert_eq!(
                        single_percent_of(downloaded, total).to_string(),
                        format!("{:.0}", share * 100.0),
                        "{downloaded} из {total}"
                    );
                }
            }
        }
    }
}
