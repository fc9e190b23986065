//! The other screens.
use savio::events::Event;
use savio::metadata::kind::MetaKind;
use savio::metadata::tag::Tag;
use savio::model::NO_DOWNLOAD;
use savio::panels::{Answer, MetaPanel, MonitorPanel, PowerPanel, Switch, SystemPanel};
use savio::power::{PowerMode, PowerModes, PowerState, BALANCED_PLAN};
use savio::report::SystemReport;
use savio::tone::Tone;

#[test]
fn what_can_be_done_with_a_file_goes_by_its_kind() {
    let mut panel = MetaPanel::new();
    assert_eq!(panel.path_display, "файл не выбран");
    assert!(!panel.can_read() && !panel.can_clean() && !panel.start());
    assert_eq!(panel.hint(), "Сначала выберите файл.");

    panel.select("/фото/снимок.jpg");
    assert!(panel.can_read() && panel.can_clean());
    assert_eq!(panel.blocked, None);

    panel.select("/фото/снимок.tiff");
    assert!(panel.can_read() && !panel.can_clean());
    assert_eq!(panel.blocked.as_deref(), Some(panel.hint()));

    panel.select_kind("/кино/клип", MetaKind::Video);
    assert!(!panel.can_read() && !panel.can_clean());
}

#[test]
fn what_was_found_in_one_file_is_not_shown_for_another() {
    let mut panel = MetaPanel::new();
    panel.select("/фото/a.jpg");
    assert!(panel.start());
    assert!(panel.busy && !panel.can_read());
    let tags = vec![Tag::new("Автор".to_owned(), "Некто".to_owned())];
    panel.drain(vec![Event::Stage("Читаю".to_owned()), Event::Tags(tags)], false);
    assert!(!panel.busy);
    assert_eq!(panel.tags.as_ref().unwrap().len(), 1);
    panel.select("/фото/b.jpg");
    assert!(panel.tags.is_none() && panel.outcome.is_none() && panel.stage.is_empty());
}

#[test]
fn nothing_is_written_over_without_a_yes() {
    let mut panel = MetaPanel::new();
    panel.select("/фото/a.jpg");
    panel.ask();
    assert!(!panel.take_answer(Answer::Open, false));
    assert!(panel.confirming);
    assert!(!panel.take_answer(Answer::Open, true));
    assert!(!panel.confirming && !panel.busy);
    panel.ask();
    assert!(!panel.take_answer(Answer::No, false));
    assert!(!panel.confirming && !panel.busy);
    panel.ask();
    assert!(panel.take_answer(Answer::Yes, false));
    assert!(!panel.confirming && panel.busy);
}

#[test]
fn the_outcome_of_cleaning_is_told() {
    let mut panel = MetaPanel::new();
    panel.select("/фото/a.jpg");
    panel.start();
    panel.drain(vec![Event::Cleaned(1536)], true);
    let outcome = panel.outcome.as_ref().unwrap();
    assert_eq!(outcome.text, "Метаданные удалены, освобождено 1.5 КБ");
    assert_eq!(outcome.tone, Tone::Success);
    panel.start();
    panel.drain(vec![Event::Cleaned(0)], true);
    assert_eq!(panel.outcome.as_ref().unwrap().tone, Tone::Secondary);
    panel.start();
    let failed = Event::Failed {
        id: NO_DOWNLOAD,
        message: "нет доступа".to_owned(),
    };
    panel.drain(vec![failed], false);
    assert_eq!(panel.outcome.as_ref().unwrap().text, "нет доступа");
    assert_eq!(panel.outcome.as_ref().unwrap().tone, Tone::Error);
    panel.close_tags();
    assert!(panel.tags.is_none());
}

#[test]
fn a_report_can_be_saved_once_it_is_there() {
    let mut panel = SystemPanel::new();
    assert!(!panel.can_save());
    panel.start();
    assert!(panel.busy && panel.asked && !panel.can_save());
    panel.drain(
        vec![Event::SystemReport(SystemReport { checks: Vec::new() })],
        true,
    );
    assert!(panel.can_save());
    panel.note_saved("/дом/отчёт.txt");
    assert_eq!(
        panel.saved.as_ref().unwrap().text,
        "Отчёт сохранён: /дом/отчёт.txt"
    );
    panel.note_unsaved("нет места");
    assert_eq!(
        panel.saved.as_ref().unwrap().text,
        "Не удалось сохранить отчёт: нет места"
    );
    assert_eq!(panel.saved.as_ref().unwrap().tone, Tone::Error);
    panel.start();
    assert!(panel.report.is_none() && panel.saved.is_none());
}

#[test]
fn measuring_goes_on_as_long_as_someone_looks() {
    let mut panel = MonitorPanel::new();
    assert!(!panel.watched(false) && panel.watched(true));
    assert_eq!(panel.set_running(false), Switch::Keep);
    assert_eq!(panel.set_running(true), Switch::Start);
    assert_eq!(panel.set_running(true), Switch::Keep);
    panel.lose();
    assert_eq!(panel.set_running(true), Switch::Start);
    panel.overlay = true;
    assert!(panel.watched(false));
    assert!(panel.keep_overlay(false));
    assert!(!panel.keep_overlay(true));
    assert!(!panel.keep_overlay(false));
    assert_eq!(panel.set_running(false), Switch::Stop);
}

#[test]
fn power_is_asked_for_when_the_card_is_opened() {
    let mut panel = PowerPanel::new();
    assert!(!panel.watch(false));
    assert!(panel.watch(true) && panel.busy && panel.asked);
    assert!(!panel.watch(true));
    let state = PowerState {
        plans: Vec::new(),
        active: Some(7),
        modes: PowerModes::Known {
            effective: Some(PowerMode::Balanced),
            ignored: None,
        },
        trouble: None,
    };
    panel.drain(vec![Event::Power(state), Event::Notice("готово".to_owned())], false);
    assert!(!panel.busy && !panel.hint.is_empty());
    assert_eq!(panel.outcome.as_ref().unwrap().tone, Tone::Success);
    panel.change();
    assert!(panel.busy && panel.outcome.is_none());
    panel.accept(PowerState {
        plans: Vec::new(),
        active: Some(BALANCED_PLAN),
        modes: PowerModes::Unsupported,
        trouble: None,
    });
    assert!(panel.hint.is_empty());
    assert!(panel.busy);
    panel.drain(vec![], true);
    assert!(!panel.busy);
}
