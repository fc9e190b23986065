//! Cutting a piece out of a download.
use savio::cut::{
    args, cut, log_line, temp_path, Complaints, CutAction, CutEvent, Outcome, Section, TAIL_LINES,
};
use std::path::Path;

fn section(start: Option<u64>, end: Option<u64>) -> Section {
    Section { start, end }
}

#[test]
fn the_temporary_name_keeps_the_folder_and_the_extension() {
    let file = Path::new("/дом/видео/Ролик.mp4");
    let named = temp_path("/дом/видео/Ролик.mp4");
    let temp = Path::new(&named);
    assert_eq!(temp.parent(), file.parent());
    assert_eq!(temp.extension().and_then(|e| e.to_str()), Some("mp4"));
    assert_ne!(temp, file);

    assert_eq!(temp_path("/дом/видео/Ролик"), "/дом/видео/Ролик.savio-cut");

    assert_eq!(
        temp_path("/дом/видео/Серия 1. Начало.mp4"),
        "/дом/видео/Серия 1. Начало.savio-cut.mp4"
    );
}

#[test]
fn the_bounds_go_before_the_input() {
    let args = args(
        "Ролик.mp4",
        "Ролик.savio-cut.mp4",
        section(Some(90), Some(300)),
    );

    let at = |flag: &str| args.iter().position(|a| a == flag);
    let input = at("-i").expect("нет ключа входного файла");
    assert!(at("-ss").expect("нет начала") < input, "{args:?}");
    assert!(at("-to").expect("нет конца") < input, "{args:?}");

    assert_eq!(args[at("-ss").unwrap() + 1], "90");
    assert_eq!(args[at("-to").unwrap() + 1], "300");
    assert_eq!(args[at("-c").expect("нет ключа кодека") + 1], "copy");
    assert_eq!(args[at("-map").expect("нет ключа дорожек") + 1], "0");
}

#[test]
fn an_open_bound_gets_no_flag() {
    let from = args("Ролик.mp4", "Ролик.savio-cut.mp4", section(Some(90), None));
    assert!(from.iter().any(|a| a == "-ss"));
    assert!(!from.iter().any(|a| a == "-to"), "{from:?}");

    let till = args("Ролик.mp4", "Ролик.savio-cut.mp4", section(None, Some(300)));
    assert!(!till.iter().any(|a| a == "-ss"), "{till:?}");
    assert!(till.iter().any(|a| a == "-to"));
}

#[test]
fn the_input_and_the_output_are_handed_over() {
    let list = args("вход.mp4", "выход.mp4", section(None, Some(7)));
    let input = list.iter().position(|a| a == "-i").unwrap();
    assert_eq!(list[input + 1], "вход.mp4");
    assert_eq!(list.last().unwrap(), "выход.mp4");
    let line = log_line(&list);
    assert!(line.ends_with("выход.mp4"), "{line}");
    assert!(line.contains("-to 7"), "{line}");
}

#[test]
fn only_the_first_complaints_are_kept() {
    let mut complaints = Complaints::new();
    assert!(!complaints.note("   "));
    for i in 0..TAIL_LINES + 2 {
        assert!(complaints.note(&format!("беда {i}")));
    }
    assert_eq!(complaints.lines.len(), TAIL_LINES);
    assert_eq!(complaints.lines[0], "беда 0");
}

/// Whether the file is removed, and how cutting ended.
fn ending(action: CutAction) -> (bool, Outcome) {
    match action {
        CutAction::Finish {
            remove_file,
            outcome,
            ..
        } => (remove_file, outcome),
        other => panic!("дело не кончено: {other:?}"),
    }
}

#[test]
fn a_cut_that_goes_well_ends_with_the_piece_in_place() {
    let quiet = Complaints::new();
    assert!(matches!(cut(&CutEvent::Adopted, &quiet), CutAction::Watch));
    let exited = CutEvent::Exited {
        cancelled: false,
        success: true,
        code: Some(0),
    };
    assert!(matches!(cut(&exited, &quiet), CutAction::Look));
    assert!(matches!(
        cut(&CutEvent::Looked { present: true }, &quiet),
        CutAction::Rename
    ));
    let (removed, outcome) = ending(cut(&CutEvent::Renamed, &quiet));
    assert!(!removed);
    assert!(matches!(outcome, Outcome::Done));
}

#[test]
fn cancelling_leaves_neither_the_piece_nor_the_file() {
    let quiet = Complaints::new();
    let stopped = CutEvent::Exited {
        cancelled: true,
        success: true,
        code: Some(0),
    };
    for event in [CutEvent::CancelledAtStart, stopped] {
        match cut(&event, &quiet) {
            CutAction::Finish {
                remove_piece,
                remove_file,
                outcome,
                ..
            } => {
                assert!(remove_piece && remove_file);
                assert!(matches!(outcome, Outcome::Cancelled));
            }
            other => panic!("{other:?}"),
        }
    }
}

#[test]
fn every_failure_leaves_the_file_and_says_why() {
    let mut complaints = Complaints::new();
    complaints.note("Invalid data found");
    let failed = CutEvent::Exited {
        cancelled: false,
        success: false,
        code: Some(1),
    };
    let all = [
        (CutEvent::NotStarted("нет файла".to_owned()), "нет файла"),
        (CutEvent::NoErrorOutput, "у ffmpeg нет stderr"),
        (CutEvent::NotAdopted("отказ".to_owned()), "отказ"),
        (CutEvent::Lost, "ffmpeg потерян"),
        (failed, "Invalid data found"),
        (
            CutEvent::Looked { present: false },
            "ffmpeg отчитался об успехе, а файла с фрагментом не оставил",
        ),
        (CutEvent::NotRenamed("занят".to_owned()), "занят"),
    ];
    for (event, why) in all {
        let (removed, outcome) = ending(cut(&event, &complaints));
        assert!(!removed, "{event:?}");
        match outcome {
            Outcome::Failed(message) => assert!(message.contains(why), "{message}"),
            other => panic!("{other:?}"),
        }
    }
}
