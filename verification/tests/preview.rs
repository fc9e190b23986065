//! What is asked of the site before a download.
use savio::cut::Section;
use savio::events::Event;
use savio::model::{
    CookieSource, DownloadOptions, Format, MediaInfo, Quality, Request, SubLang,
};
use savio::paths::FilePath;
use savio::preview::{
    looks_like_url, picture_is_valid, Preview, PreviewState, Tick, PREVIEW_DEBOUNCE,
};

fn request(url: &str, format: Format, quality: Quality) -> Request {
    Request {
        url: url.to_owned(),
        format,
        quality,
        options: DownloadOptions::default(),
        section: Section::default(),
        cookies: CookieSource::default(),
        cookie_file: None,
        sub_lang: SubLang::default(),
    }
}

fn info(title: &str) -> MediaInfo {
    MediaInfo {
        title: Some(title.to_owned()),
        ..MediaInfo::default()
    }
}

/// A preview that has asked about a link.
fn asking(url: &str) -> Preview {
    let mut preview = Preview::default();
    assert!(preview.retarget(url, CookieSource::Off, &None, 0), "{url}");
    preview.asked();
    preview
}

#[test]
fn an_answer_about_the_previous_link_never_reaches_the_screen() {
    let mut preview = asking("https://site.ru/a");
    let late = vec![Event::Info(info("Ролик по прежней ссылке"))];
    assert!(preview.retarget("https://site.ru/b", CookieSource::Off, &None, 0));

    assert!(
        preview.take_events(late, false).is_empty(),
        "ответ по прежней ссылке обязан пропасть вместе с приёмником"
    );
    assert!(preview.info.is_none(), "и ничего после себя не оставить");
}

#[test]
fn an_answer_about_the_link_in_the_field_reaches_the_screen() {
    let mut preview = asking("https://site.ru/a");

    let events = preview.take_events(vec![Event::Info(info("Тот самый ролик"))], false);
    assert_eq!(events.len(), 1, "ответ обязан доехать: {events:?}");
}

#[test]
fn silence_and_an_answer_are_told_apart() {
    let mut preview = asking("https://site.ru/a");
    assert!(preview.take_events(vec![], true).is_empty());
    assert_eq!(preview.state, PreviewState::Failed);

    let mut preview = asking("https://site.ru/a");
    assert_eq!(
        preview.take_events(vec![Event::Info(info("Ролик"))], true).len(),
        1
    );
    assert_ne!(
        preview.state,
        PreviewState::Failed,
        "ответ пришёл — жаловаться не на что"
    );
}

#[test]
fn the_site_is_asked_only_after_a_pause() {
    let mut preview = Preview::default();

    assert!(preview.retarget("https://site.ru/a", CookieSource::Off, &None, 10_000));
    assert_eq!(preview.due, Some(10_000 + PREVIEW_DEBOUNCE));

    assert!(preview.retarget("https://site.ru/ab", CookieSource::Off, &None, 10_400));
    assert_eq!(preview.due, Some(10_400 + PREVIEW_DEBOUNCE));

    assert!(!preview.retarget("https://site.ru/ab", CookieSource::Off, &None, 10_900));
    assert_eq!(preview.due, Some(10_400 + PREVIEW_DEBOUNCE));
}

#[test]
fn junk_from_the_clipboard_is_not_worth_a_request() {
    let mut preview = Preview::default();
    for text in ["", "   ", "просто текст", "site.com/watch?v=a", "https://"] {
        preview.retarget(text, CookieSource::Off, &None, 0);
        assert_eq!(preview.due, None, "спросили про {text:?}");
        assert_eq!(preview.state, PreviewState::Idle, "на {text:?}");
    }
}

#[test]
fn the_answer_is_reused_only_for_the_very_same_request() {
    let mut preview = Preview::default();
    preview.retarget("https://site.ru/a", CookieSource::Off, &None, 0);
    preview.info = Some(info("Ролик"));

    let mut same = request("https://site.ru/a", Format::Mp4, Quality::Best);
    assert!(preview.answer_for(&same).is_some());

    let other = request("https://site.ru/b", Format::Mp4, Quality::Best);
    assert!(preview.answer_for(&other).is_none(), "чужая ссылка");

    same.cookies = CookieSource::Firefox;
    assert!(preview.answer_for(&same).is_none(), "чужой вход в аккаунт");
}

#[test]
fn a_different_cookie_file_is_a_different_question() {
    let mine = Some(FilePath::split("/home/me/cookies.txt"));
    let other = Some(FilePath::split("/home/me/другой.txt"));

    let mut preview = Preview::default();
    preview.retarget("https://site.ru/a", CookieSource::File, &mine, 0);
    preview.info = Some(info("Ролик"));

    let mut request = request("https://site.ru/a", Format::Mp4, Quality::Best);
    request.cookies = CookieSource::File;
    request.cookie_file = mine.clone();
    assert!(preview.answer_for(&request).is_some(), "свой же ответ");

    request.cookie_file = other.clone();
    assert!(preview.answer_for(&request).is_none(), "ответ по чужому файлу");

    assert!(
        preview.retarget("https://site.ru/a", CookieSource::File, &other, 1_000),
        "смену файла не заметили"
    );
    assert!(
        !preview.retarget("https://site.ru/a", CookieSource::File, &other, 2_000),
        "тот же файл — спрашивать заново нечего"
    );
}

#[test]
fn the_clock_decides_when_the_site_is_asked() {
    let mut preview = Preview::default();
    assert_eq!(preview.tick(5), Tick::Rest);
    preview.retarget("https://site.ru/a", CookieSource::Off, &None, 1_000);
    assert_eq!(preview.tick(1_000), Tick::Wait(PREVIEW_DEBOUNCE));
    assert_eq!(preview.tick(1_000 + PREVIEW_DEBOUNCE - 1), Tick::Wait(1));
    assert_eq!(preview.tick(1_000 + PREVIEW_DEBOUNCE), Tick::Ask);
    preview.asked();
    assert_eq!(preview.tick(1_000 + PREVIEW_DEBOUNCE), Tick::Rest);
}

#[test]
fn a_question_that_failed_can_be_asked_again() {
    let mut preview = asking("https://site.ru/a");
    preview.take_events(vec![], true);
    preview.retry(3_000);
    assert_eq!(preview.state, PreviewState::Asking);
    assert_eq!(preview.due, Some(3_000 + PREVIEW_DEBOUNCE));

    let mut idle = Preview::default();
    idle.retry(3_000);
    assert_eq!(idle.due, None, "спрашивать не о чем");
}

#[test]
fn an_answer_stays_when_the_question_ends_later() {
    let mut preview = asking("https://site.ru/a");
    preview.answer(info("Ролик"));
    preview.end(false);
    assert_eq!(preview.state, PreviewState::Ready);
    assert!(!preview.asking);
    assert_eq!(preview.info.unwrap().title.as_deref(), Some("Ролик"));
}

#[test]
fn links_are_told_from_other_text() {
    assert!(looks_like_url("https://a"));
    assert!(looks_like_url("http://a"));
    assert!(!looks_like_url("http://"));
    assert!(!looks_like_url("ftp://a"));
    assert!(!looks_like_url(""));
}

#[test]
fn a_picture_needs_a_byte_for_each_colour_of_each_point() {
    assert!(picture_is_valid(2, 3, 24));
    assert!(!picture_is_valid(2, 3, 23));
    assert!(!picture_is_valid(0, 3, 0));
    assert!(!picture_is_valid(usize::MAX, 2, 8));
    assert!(!picture_is_valid(usize::MAX, 1, usize::MAX));
}

#[test]
fn a_cookie_file_written_otherwise_is_the_same_question() {
    let mine = Some(FilePath::split("/home/me/cookies.txt"));
    let again = Some(FilePath::split("/home//me/./cookies.txt"));
    let mut preview = Preview::default();
    assert!(preview.retarget("https://site.ru/a", CookieSource::File, &mine, 0));
    assert!(!preview.retarget("https://site.ru/a", CookieSource::File, &again, 1_000));
    assert!(preview.retarget("https://site.ru/a", CookieSource::File, &None, 2_000));
}
