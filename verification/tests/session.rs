//! The download screen.
use savio::controls::link_is_wrong;
use savio::cut::Section;
use savio::events::Event;
use savio::hints::subtitle_hint;
use savio::lines::Progress;
use savio::model::{CookieSource, DownloadOptions, Format, MediaInfo, Quality, SubLang, NO_DOWNLOAD};
use savio::paths::FilePath;
use savio::preview::{PreviewState, Tick, PREVIEW_DEBOUNCE};
use savio::queue::QueueStatus;
use savio::session::{Component, Launch, Session, Setup, State};
use savio::tone::Tone;

fn session() -> Session {
    Session::new(
        Format::Mp4,
        Quality::Best,
        DownloadOptions::default(),
        Some("/dl".to_owned()),
    )
}

/// Puts a link in the field and starts it.
fn started(session: &mut Session, url: &str) -> Launch {
    session.url = url.to_owned();
    let launch = session.press_main().expect("загрузка обязана начаться");
    session.begin(launch.id);
    launch
}

fn done(id: u32, path: &str) -> Event {
    Event::Done {
        id,
        file: FilePath::split(path),
    }
}

fn info(title: &str) -> MediaInfo {
    MediaInfo {
        title: Some(title.to_owned()),
        ..MediaInfo::default()
    }
}

#[test]
fn nothing_starts_without_a_link_a_folder_and_a_tool() {
    let mut s = session();
    assert!(!s.can_start() && !s.can_enqueue());
    assert_eq!(s.main_button(), ("Скачать", false));
    assert_eq!(s.status(), ("Готов к работе", Tone::Secondary));
    s.url = "  https://site/a  ".to_owned();
    assert!(s.can_start() && s.can_enqueue() && s.url_is_ready());
    s.choose_section(None);
    assert!(!s.can_start() && !s.can_enqueue());
    s.choose_section(Some(Section {
        start: Some(5),
        end: None,
    }));
    assert!(s.can_start());
    s.out_dir = None;
    assert!(!s.can_start());
    s.out_dir = Some("/dl".to_owned());
    s.found_tools(Some("нет yt-dlp".to_owned()), true);
    assert!(!s.can_start() && !s.can_enqueue());
    assert!(s.press_main().is_none());
    assert!(s.queue.items.is_empty());
}

#[test]
fn a_download_runs_from_the_link_to_the_file() {
    let mut s = session();
    let launch = started(&mut s, " https://site/a ");
    assert_eq!(launch.request.url, "https://site/a");
    assert_eq!(launch.out_dir, "/dl");
    assert!(s.state.is_running());
    assert_eq!(s.status(), ("Загрузка", Tone::Accent));
    assert_eq!(s.main_button(), ("Отмена", true));
    assert!(!s.can_start() && !s.can_update());

    let progress = Progress {
        download_id: launch.id,
        downloaded: 512,
        total: 1024,
        speed_bps: None,
        eta_secs: None,
    };
    let effects = s.drain_events(
        vec![
            Event::Stage("Качаю".to_owned()),
            Event::Progress(progress),
            Event::Log("строка".to_owned()),
        ],
        false,
        0,
    );
    assert!(effects.launch.is_none() && !effects.tools);
    assert_eq!(s.progress_line, "Качаю · 50% · 512 Б из 1.0 КБ");
    assert_eq!(s.log.lines, vec!["строка".to_owned()]);

    let effects = s.drain_events(vec![done(launch.id, "/dl/ролик.mp4")], false, 0);
    assert!(effects.launch.is_none(), "очередь пуста");
    assert!(matches!(&s.state, State::Done(path) if path == "/dl/ролик.mp4"));
    assert_eq!(s.done_path_display, "/dl/ролик.mp4");
    assert_eq!(s.history.entries[0].name, "ролик.mp4");
    assert_eq!(s.queue.items[0].status, QueueStatus::Done);
    assert_eq!(s.queue.running_id(), None);
}

#[test]
fn the_queue_goes_on_after_each_end() {
    let mut s = session();
    let first = started(&mut s, "https://site/a");
    for url in ["https://site/b", "https://site/c"] {
        s.url = url.to_owned();
        assert!(s.add_link());
        assert!(s.url.is_empty(), "поле освобождается под следующую");
        assert!(s.state.is_running(), "постановка ничего не обрывает");
    }

    let failed = Event::Failed {
        id: first.id,
        message: "не вышло".to_owned(),
    };
    let next = s.drain_events(vec![failed], false, 0).launch.unwrap();
    assert_eq!(next.request.url, "https://site/b");
    assert_eq!(s.queue.items[0].status, QueueStatus::Failed("не вышло".to_owned()));
    s.begin(next.id);

    // No more reports: what was being made is taken for done, and the queue goes on.
    let last = s.drain_events(vec![], true, 0).launch.unwrap();
    assert_eq!(last.request.url, "https://site/c");
    assert_eq!(s.queue.items[1].status, QueueStatus::Done);
}

#[test]
fn reports_of_a_cancelled_download_are_ignored() {
    let mut s = session();
    let first = started(&mut s, "https://site/a");
    assert!(s.press_main().is_none(), "кнопка отменяет");
    assert!(matches!(s.state, State::Cancelled));
    assert_eq!(s.queue.items[0].status, QueueStatus::Cancelled);

    let second = started(&mut s, "https://site/b");
    let late = vec![
        done(first.id, "/dl/чужой.mp4"),
        Event::Failed {
            id: first.id,
            message: "поздно".to_owned(),
        },
        Event::Failed {
            id: NO_DOWNLOAD,
            message: "не про загрузку".to_owned(),
        },
        Event::Progress(Progress {
            download_id: first.id,
            downloaded: 1,
            total: 1,
            speed_bps: None,
            eta_secs: None,
        }),
    ];
    let effects = s.drain_events(late, false, 0);
    assert!(effects.launch.is_none());
    assert!(s.state.is_running());
    assert_eq!(s.progress.total, 0);
    assert!(s.history.entries.is_empty());
    assert_eq!(s.queue.running_id(), Some(second.id));
}

#[test]
fn a_download_that_cannot_begin_says_why() {
    let mut s = session();
    s.url = "https://site/a".to_owned();
    let launch = s.press_main().unwrap();
    s.fail_to_begin(launch.id, "нет yt-dlp".to_owned());
    assert!(matches!(&s.state, State::Failed(why) if why == "нет yt-dlp"));
    assert_eq!(s.setup_error.as_deref(), Some("нет yt-dlp"));
    assert_eq!(s.queue.items[0].error_line, "нет yt-dlp");
}

#[test]
fn taking_the_last_link_out_ends_the_waiting() {
    let mut s = session();
    for url in ["https://site/a", "https://site/b"] {
        s.url = url.to_owned();
        assert!(s.add_link());
    }
    assert!(matches!(s.state, State::Queued));
    let id = s.queue.items[0].id;
    s.remove_from_queue(id);
    assert!(matches!(s.state, State::Queued), "вторая ещё ждёт");
    s.clear_queue();
    assert!(matches!(s.state, State::Idle));
    assert!(s.queue.items.is_empty());

    let launch = started(&mut s, "https://site/c");
    s.clear_queue();
    assert!(s.state.is_running());
    assert_eq!(s.queue.running_id(), Some(launch.id));
}

#[test]
fn the_answer_of_the_site_reaches_the_row_and_the_preview() {
    let mut s = session();
    s.url = "https://site/a".to_owned();
    s.retarget_preview(0);
    assert_eq!(s.preview.state, PreviewState::Asking);
    started(&mut s, "https://site/a");
    s.drain_events(vec![Event::Info(info("Ролик про кота"))], false, 0);
    assert_eq!(s.queue.items[0].title, "Ролик про кота");
    assert_eq!(s.preview.state, PreviewState::Ready);

    // A picture is taken once, and only by the preview of the same link.
    let pictures = vec![
        Event::Thumbnail { valid: false },
        Event::Thumbnail { valid: true },
        Event::Thumbnail { valid: true },
    ];
    assert_eq!(s.drain_events(pictures, false, 0).cover, Some(1));
}

#[test]
fn the_preview_is_asked_for_and_shown() {
    let mut s = session();
    s.url = "https://site/a".to_owned();
    s.retarget_preview(1_000);
    let effects = s.tick_preview(vec![], false, 1_000);
    assert_eq!(effects.tick, Tick::Wait(PREVIEW_DEBOUNCE));
    let effects = s.tick_preview(vec![], false, 1_000 + PREVIEW_DEBOUNCE);
    assert_eq!(effects.tick, Tick::Ask);
    assert_eq!(s.preview_request().url, "https://site/a");
    s.preview.asked();

    let mut answer = info("Ролик");
    answer.duration_secs = Some(65);
    answer.heights = vec![720];
    let reports = vec![Event::Info(answer), Event::Thumbnail { valid: true }];
    let effects = s.tick_preview(reports, true, 5_000);
    assert_eq!(effects.cover, Some(1));
    assert_eq!(effects.tick, Tick::Rest);
    assert_eq!(s.meta_line, "1:05 · до 720p");
    assert_eq!(s.preview.state, PreviewState::Ready);

    s.choose_quality(Quality::P1080);
    assert_eq!(s.quality_note, "Выше 720p этот ролик не отдают — скачается 720p.");
    s.choose_format(Format::Mp3);
    assert_eq!(s.quality_note, "");

    s.url = "https://site/b".to_owned();
    s.retarget_preview(6_000);
    assert_eq!(s.meta_line, "");
    assert!(s.preview.info.is_none());
    // The answer to the former question is not taken.
    s.tick_preview(vec![Event::Info(info("Чужой"))], false, 6_000);
    assert!(s.preview.info.is_none());
}

#[test]
fn work_on_the_tools_has_its_own_reports() {
    let mut s = session();
    s.start_install();
    assert!(s.setup.busy() && s.attached && !s.can_update());
    assert_eq!(s.progress_line, "Проверяю, чего не хватает…");
    s.url = "https://site/a".to_owned();
    assert!(s.press_main().is_none(), "пока ставятся инструменты, ничего не идёт");
    assert!(matches!(s.state, State::Queued));

    let failed = Event::Failed {
        id: NO_DOWNLOAD,
        message: "нет сети".to_owned(),
    };
    let effects = s.drain_events(vec![failed], false, 0);
    assert!(effects.tools);
    assert!(matches!(&s.setup, Setup::Failed(why) if why == "нет сети"));
    assert_eq!(s.queue.items[0].status, QueueStatus::Waiting);

    s.start_update(Component::Ytdlp);
    assert_eq!(s.progress_line, "Проверяю версию…");
    let effects = s.drain_events(
        vec![
            Event::Warning("берегитесь".to_owned()),
            Event::Notice("обновлено".to_owned()),
            Event::Ready,
        ],
        false,
        0,
    );
    assert!(effects.tools);
    assert!(matches!(s.setup, Setup::Ready));
    let shown: Vec<(String, Tone)> = s.banners().into_iter().map(|b| (b.text, b.tone)).collect();
    assert_eq!(
        shown,
        vec![
            ("берегитесь".to_owned(), Tone::Warning),
            ("обновлено".to_owned(), Tone::Success),
        ]
    );
    s.start_update(Component::Ffmpeg);
    assert!(s.banners().is_empty());
    s.cancel_setup(0);
    assert!(!s.setup.busy() && s.progress_line.is_empty());
}

#[test]
fn a_preview_that_failed_is_asked_for_again_once_the_tools_are_there() {
    let mut s = session();
    s.url = "https://site/a".to_owned();
    s.retarget_preview(0);
    s.preview.asked();
    s.tick_preview(vec![], true, 1_000);
    assert_eq!(s.preview.state, PreviewState::Failed);
    s.finish_setup(Setup::Ready, 2_000);
    assert_eq!(s.preview.due, Some(2_000 + PREVIEW_DEBOUNCE));
}

#[test]
fn messages_stand_in_their_order() {
    let mut s = session();
    s.setup = Setup::Failed("установка".to_owned());
    s.warning = Some("внимание".to_owned());
    s.notice = Some("весть".to_owned());
    s.setup_error = Some("беда".to_owned());
    let shown: Vec<(String, Tone)> = s.banners().into_iter().map(|b| (b.text, b.tone)).collect();
    assert_eq!(
        shown,
        vec![
            ("установка".to_owned(), Tone::Warning),
            ("внимание".to_owned(), Tone::Warning),
            ("весть".to_owned(), Tone::Success),
            ("беда".to_owned(), Tone::Error),
        ]
    );
}

#[test]
fn cookies_from_a_file_need_a_file() {
    let mut s = session();
    assert!(s.needs_cookie_file(CookieSource::File));
    assert!(!s.needs_cookie_file(CookieSource::Firefox));
    s.choose_cookies(CookieSource::File, None, 0);
    assert_eq!(s.cookies, CookieSource::Off, "без файла источник остаётся прежним");
    s.choose_cookies(CookieSource::File, Some(FilePath::split("/c.txt")), 0);
    assert_eq!(s.cookies, CookieSource::File);
    assert_eq!(s.cookie_file, Some(FilePath::split("/c.txt")));
    s.choose_cookie_file(None, 0);
    assert_eq!(s.cookie_file, Some(FilePath::split("/c.txt")));
    s.choose_cookie_file(Some(FilePath::split("/d.txt")), 0);
    assert_eq!(s.cookie_file, Some(FilePath::split("/d.txt")));
    s.choose_cookies(CookieSource::Chrome, None, 0);
    assert_eq!(s.cookies, CookieSource::Chrome);
    assert!(!s.needs_cookie_file(CookieSource::File), "файл уже известен");
}

#[test]
fn the_settings_are_taken_when_the_link_is_queued() {
    let mut s = session();
    s.url = "https://site/a".to_owned();
    s.choose_quality(Quality::P720);
    s.choose_language(SubLang::Code("ru".to_owned()));
    assert_eq!(s.sub_lang_label, "ru");
    assert!(s.add_link());
    s.choose_quality(Quality::P480);
    s.choose_format(Format::Mp3);
    let request = &s.queue.items[0].request;
    assert_eq!(request.quality, Quality::P720);
    assert_eq!(request.format, Format::Mp4);
    assert_eq!(request.sub_lang, SubLang::Code("ru".to_owned()));
}

#[test]
fn a_button_that_is_off_says_why() {
    let mut s = session();
    assert_eq!(
        s.start_hint(),
        "Вставьте ссылку или поставьте что-нибудь в очередь."
    );
    assert_eq!(
        s.queue_hint(),
        "Вставьте ссылку — она встанет в конец очереди."
    );
    s.url = "https://site/a".to_owned();
    s.setup_error = Some("нет".to_owned());
    assert_eq!(s.queue_hint(), "Сначала нужен yt-dlp.");
    assert_eq!(s.start_hint(), "Сначала нужен yt-dlp.");
    s.setup_error = None;
    s.out_dir = None;
    assert_eq!(s.queue_hint(), "Сначала выберите папку сохранения.");
    assert_eq!(s.start_hint(), "Сначала выберите папку сохранения.");
    s.choose_section(None);
    assert_eq!(s.queue_hint(), "Поправьте границы фрагмента.");
    assert_eq!(s.start_hint(), "Поправьте границы фрагмента.");

    let mut full = session();
    for i in 0..savio::queue::QUEUE_LIMIT {
        full.url = format!("https://site/{i}");
        assert!(full.add_link());
    }
    full.url = "https://site/extra".to_owned();
    assert!(!full.add_link());
    assert_eq!(full.url, "https://site/extra", "отвергнутая ссылка остаётся в поле");
    assert_eq!(
        full.queue_hint(),
        "Очередь заполнена: дождитесь, пока что-нибудь скачается."
    );
    assert!(full.can_start() || full.url_is_ready());
}

#[test]
fn notes_follow_what_was_chosen() {
    let mut s = session();
    assert!(s.section_note().unwrap().0.starts_with("Пусто"));
    s.choose_section(Some(Section {
        start: None,
        end: Some(9),
    }));
    assert_eq!(s.section_note().unwrap().1, Tone::Muted);
    s.found_tools(None, true);
    assert_eq!(
        s.section_note(),
        Some((
            "Вырезать нечем: ffmpeg не найден. Ролик скачается целиком.",
            Tone::Warning
        ))
    );
    s.choose_section(None);
    assert_eq!(s.section_note(), None);
    assert_eq!(s.embed_note(), None);
    s.options.embed_metadata = true;
    assert!(s.embed_note().is_some());

    assert_eq!(CookieSource::Off.note().1, Tone::Muted);
    assert!(CookieSource::File.note().0.contains("Netscape"));
    assert!(CookieSource::Chrome.note().0.starts_with("Закройте браузер"));
    assert_eq!(PreviewState::Asking.note(), Some("Смотрю, что это за ролик…"));
    assert_eq!(PreviewState::Ready.note(), None);
    assert_eq!(State::Idle.note(), Some("Вставьте ссылку и нажмите «Скачать»."));
    assert_eq!(State::Running.note(), None);
    assert_eq!(Setup::Updating(Component::Ytdlp).headline().0, "Обновление движка");
    assert_eq!(Setup::Installing.headline().0, "Установка зависимостей");
    assert_ne!(subtitle_hint(true), subtitle_hint(false));
    assert!(!s.subtitles_matter());
}

#[test]
fn text_that_is_no_link_is_marked() {
    assert!(!link_is_wrong(""));
    assert!(!link_is_wrong("   "));
    assert!(!link_is_wrong("  https://site/a "));
    assert!(link_is_wrong("просто текст"));
}
