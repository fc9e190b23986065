//! The queue of downloads.
use savio::cut::Section;
use savio::model::{
    CookieSource, DownloadId, DownloadOptions, Format, MediaInfo, Quality, Request, SubLang, NO_DOWNLOAD,
};
use savio::queue::{Queue, QueueStatus, QUEUE_LIMIT};
use savio::tone::Tone;

fn request(url: &str, format: Format, quality: Quality) -> Request {
    Request {
        url: url.to_owned(),
        format,
        quality,
        options: DownloadOptions::default(),
        section: Section::default(),
        cookies: CookieSource::default(),
        cookie_file: None,
        sub_lang: SubLang::default(),
    }
}

fn queue_with(count: usize) -> Queue {
    let mut queue = Queue::new();
    for i in 0..count {
        let url = format!("https://site/{i}");
        assert!(
            queue
                .push(
                    request(&url, Format::Mp4, Quality::Best),
                    "/dl".to_owned(),
                    None
                )
                .is_some(),
            "{url} не влезла в очередь"
        );
    }
    queue
}

fn ids(queue: &Queue) -> Vec<DownloadId> {
    queue.items.iter().map(|item| item.id).collect()
}

fn info(title: &str) -> MediaInfo {
    MediaInfo {
        title: Some(title.to_owned()),
        ..MediaInfo::default()
    }
}

#[test]
fn a_queued_row_is_named_by_the_preview_right_away() {
    let mut queue = Queue::new();
    queue
        .push(
            request("https://site/watch?v=abc", Format::Mp4, Quality::Best),
            "/dl".to_owned(),
            Some(info("Ролик про кота")),
        )
        .expect("место в пустой очереди есть");

    assert_eq!(queue.items[0].title, "Ролик про кота");
}

#[test]
fn numbering_never_hands_out_the_reserved_zero() {
    let mut queue = Queue::new();
    assert_ne!(queue.next_id, NO_DOWNLOAD);

    queue.next_id = u32::MAX;
    let last = queue
        .push(
            request("https://site/a", Format::Mp4, Quality::Best),
            "/dl".to_owned(),
            None,
        )
        .unwrap();
    let wrapped = queue
        .push(
            request("https://site/b", Format::Mp4, Quality::Best),
            "/dl".to_owned(),
            None,
        )
        .unwrap();

    assert_eq!(last, u32::MAX);
    assert_eq!(wrapped, 1, "после переполнения нумерация обходит ноль");
}

#[test]
fn queue_stays_bounded_by_dropping_what_already_finished() {
    let mut queue = queue_with(QUEUE_LIMIT);
    assert_eq!(queue.items.len(), QUEUE_LIMIT);
    assert!(queue.full, "мест нет и освободить нечем");

    let extra = request("https://site/extra", Format::Mp4, Quality::Best);
    assert_eq!(queue.push(extra.clone(), "/dl".to_owned(), None), None);
    assert_eq!(queue.items.len(), QUEUE_LIMIT, "ожидающую не выбросили");

    let oldest = queue.items[0].id;
    queue.set_status(oldest, QueueStatus::Done);
    assert!(!queue.full);

    assert!(queue.push(extra, "/dl".to_owned(), None).is_some());
    assert_eq!(queue.items.len(), QUEUE_LIMIT);
    assert!(
        queue.items.iter().all(|item| item.id != oldest),
        "место обязана освободить отработавшая строка"
    );
}

#[test]
fn the_queue_goes_top_down_and_skips_what_already_ran() {
    let mut queue = queue_with(3);
    let id = ids(&queue);
    let next = |q: &Queue| q.next_waiting().map(|(id, ..)| id);

    assert_eq!(next(&queue), Some(id[0]));
    queue.set_status(id[0], QueueStatus::Done);
    assert_eq!(next(&queue), Some(id[1]));
    queue.set_status(id[1], QueueStatus::Running);
    assert_eq!(next(&queue), Some(id[2]));

    queue.set_status(id[2], QueueStatus::Failed("нет такой страницы".into()));
    assert_eq!(next(&queue), None);
    assert!(!queue.has_waiting());
}

#[test]
fn a_late_event_of_a_dropped_download_belongs_to_no_one() {
    let mut queue = queue_with(2);
    let id = ids(&queue);

    queue.set_status(id[0], QueueStatus::Running);
    assert!(queue.is_running(id[0]));
    assert!(!queue.is_running(id[1]), "ожидающая ещё не идёт");

    queue.set_status(id[0], QueueStatus::Cancelled);
    queue.set_status(id[1], QueueStatus::Running);

    assert!(!queue.is_running(id[0]), "запоздалое событие снятой загрузки");
    assert!(queue.is_running(id[1]));
    assert!(!queue.is_running(NO_DOWNLOAD));
    assert_eq!(queue.running_id(), Some(id[1]));
}

#[test]
fn a_row_says_what_it_will_download_and_in_what_state() {
    let mut queue = Queue::new();
    let id = queue
        .push(
            request("https://site/a", Format::Mp3, Quality::P1080),
            "/dl".to_owned(),
            None,
        )
        .unwrap();

    let detail = queue.items[0].detail.clone();
    assert!(detail.starts_with("Ожидает"), "{detail}");
    assert!(detail.contains("MP3 · 192 кбит/с"), "{detail}");

    queue.set_status(id, QueueStatus::Running);
    let detail = &queue.items[0].detail;
    assert!(detail.starts_with("Качается"), "{detail}");
    assert!(detail.contains("MP3 · 192 кбит/с"), "{detail}");
}

#[test]
fn the_reason_for_failure_is_flattened_into_one_line() {
    let mut queue = queue_with(1);
    let id = queue.items[0].id;
    assert!(queue.items[0].error_line.is_empty(), "отказа ещё не было");

    queue.set_status(
        id,
        QueueStatus::Failed("Ошибка (код 1):\nERROR: Unsupported URL:\n  https://site".into()),
    );

    let line = &queue.items[0].error_line;
    assert!(!line.contains('\n'), "перенос остался: {line}");
    assert_eq!(
        line,
        "Ошибка (код 1): ERROR: Unsupported URL: https://site"
    );

    queue.set_status(id, QueueStatus::Done);
    assert!(queue.items[0].error_line.is_empty());
}

#[test]
fn the_link_gives_way_to_the_title_when_it_arrives() {
    let mut queue = Queue::new();
    let id = queue
        .push(
            request("https://site/watch?v=abc", Format::Mp4, Quality::Best),
            "/dl".to_owned(),
            None,
        )
        .unwrap();

    assert_eq!(queue.items[0].title, "https://site/watch?v=abc");
    queue.set_title(id, "Ролик про кота");
    assert_eq!(queue.items[0].title, "Ролик про кота");
}

#[test]
fn summary_counts_every_state_a_row_can_be_in() {
    let mut queue = queue_with(5);
    let id = ids(&queue);
    queue.set_status(id[0], QueueStatus::Running);
    queue.set_status(id[1], QueueStatus::Done);
    queue.set_status(id[2], QueueStatus::Failed("не вышло".into()));
    queue.set_status(id[3], QueueStatus::Cancelled);

    assert_eq!(
        queue.summary,
        "Идёт: 1 · В очереди: 1 · Готово: 1 · Ошибок: 1 · Снято: 1"
    );

    let empty = Queue::new();
    assert!(empty.summary.is_empty());
}

#[test]
fn neither_removing_nor_clearing_drops_the_running_download() {
    let mut queue = queue_with(3);
    let id = ids(&queue);
    queue.set_status(id[1], QueueStatus::Running);

    queue.remove(id[1]);
    assert!(queue.items.iter().any(|item| item.id == id[1]));

    queue.remove(id[0]);
    assert!(queue.items.iter().all(|item| item.id != id[0]));

    queue.clear();
    assert_eq!(queue.items.len(), 1);
    assert_eq!(queue.items[0].id, id[1]);
    assert_eq!(queue.summary, "Идёт: 1");
}

#[test]
fn queue_states_explain_themselves_distinctly() {
    let all = [
        QueueStatus::Waiting,
        QueueStatus::Running,
        QueueStatus::Done,
        QueueStatus::Failed(String::new()),
        QueueStatus::Cancelled,
    ];

    let mut seen: Vec<&str> = Vec::new();
    for status in &all {
        let label = status.label();
        assert!(!label.trim().is_empty(), "{status:?}: пустая подпись");
        assert!(!seen.contains(&label), "{label}: подпись повторяется");
        seen.push(label);
    }

    assert!(!QueueStatus::Waiting.finished());
    assert!(!QueueStatus::Running.finished());
    assert!(QueueStatus::Done.finished());
    assert!(QueueStatus::Failed(String::new()).finished());
    assert!(QueueStatus::Cancelled.finished());
}

#[test]
fn room_is_made_by_the_oldest_finished_row() {
    let mut queue = queue_with(QUEUE_LIMIT);
    let id = ids(&queue);
    queue.set_status(id[7], QueueStatus::Cancelled);
    queue.set_status(id[3], QueueStatus::Failed("нет сети".into()));
    assert!(queue.make_room());
    assert_eq!(queue.items.len(), QUEUE_LIMIT - 1);
    assert!(queue.items.iter().all(|item| item.id != id[3]));
    assert!(queue.items.iter().any(|item| item.id == id[7]));
    // There is room now: nothing more has to leave.
    assert!(queue.make_room());
    assert_eq!(queue.items.len(), QUEUE_LIMIT - 1);
}

#[test]
fn a_running_row_gives_way_to_no_one() {
    let mut queue = queue_with(QUEUE_LIMIT);
    let id = ids(&queue);
    queue.set_status(id[0], QueueStatus::Running);
    assert!(!queue.make_room());
    assert!(queue.full);
    assert_eq!(queue.items.len(), QUEUE_LIMIT);
}

#[test]
fn numbers_go_up_and_are_not_handed_out_again() {
    let mut queue = queue_with(3);
    assert_eq!(ids(&queue), vec![1, 2, 3]);
    queue.clear();
    assert!(queue.items.is_empty());
    let id = queue
        .push(
            request("https://site/a", Format::Mp4, Quality::Best),
            "/dl".to_owned(),
            None,
        )
        .unwrap();
    assert_eq!(id, 4);
}

#[test]
fn the_running_request_is_the_one_of_the_running_row() {
    let mut queue = queue_with(2);
    let id = ids(&queue);
    assert!(queue.running_request().is_none());
    queue.set_status(id[1], QueueStatus::Running);
    assert_eq!(queue.running_request().unwrap().url, "https://site/1");
}

#[test]
fn a_row_for_the_best_video_reads_as_one_line() {
    let queue = queue_with(1);
    assert_eq!(queue.items[0].detail, "Ожидает · MP4 · лучшее");
    assert_eq!(queue.summary, "В очереди: 1");
}

#[test]
fn a_state_has_its_colour() {
    assert_eq!(QueueStatus::Waiting.color(), Tone::Muted);
    assert_eq!(QueueStatus::Running.color(), Tone::Accent);
    assert_eq!(QueueStatus::Done.color(), Tone::Success);
    assert_eq!(QueueStatus::Failed(String::new()).color(), Tone::Error);
    assert_eq!(QueueStatus::Cancelled.color(), Tone::Secondary);
}
