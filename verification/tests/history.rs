//! The list of what was downloaded.
use savio::history::{History, HISTORY_LIMIT};
use savio::paths::FilePath;

#[test]
fn history_stays_bounded() {
    let mut history = History::default();
    for i in 0..HISTORY_LIMIT + 10 {
        let path = format!("/dl/{i}.mp4");
        history.remember(&path);
    }

    assert_eq!(history.entries.len(), HISTORY_LIMIT);
    let newest = format!("{}.mp4", HISTORY_LIMIT + 9);
    assert_eq!(history.entries[0].name, newest);
    assert!(
        history.entries.iter().all(|entry| entry.name != "0.mp4"),
        "самая старая запись обязана уйти первой"
    );
}

#[test]
fn newest_download_comes_first() {
    let mut history = History::default();
    history.remember("/dl/первый.mp4");
    history.remember("/dl/второй.mp3");

    assert_eq!(history.entries[0].name, "второй.mp3");
    assert_eq!(history.entries[1].name, "первый.mp4");
}

#[test]
fn repeat_moves_the_entry_up_instead_of_duplicating_it() {
    let mut history = History::default();
    history.remember("/dl/a.mp4");
    history.remember("/dl/b.mp4");
    history.remember("/dl/a.mp4");

    assert_eq!(history.entries.len(), 2);
    assert_eq!(history.entries[0].name, "a.mp4");
    assert_eq!(history.entries[1].name, "b.mp4");
}

#[test]
fn entry_splits_the_path_into_name_and_folder() {
    let mut history = History::default();
    history.remember("/dl/Ролик [id].mp4");

    let entry = &history.entries[0];
    assert_eq!(entry.name, "Ролик [id].mp4");
    assert_eq!(entry.dir.as_deref(), Some("/dl"));
    assert!(!entry.dir_display.is_empty());
}

#[test]
fn entry_without_a_folder_has_nothing_to_open() {
    let mut history = History::default();
    history.remember("file.mp4");

    let entry = &history.entries[0];
    assert_eq!(entry.name, "file.mp4");
    assert_eq!(entry.dir, None);
    assert!(entry.dir_display.is_empty());
}

#[test]
fn a_repeat_leaves_the_other_entries_in_their_order() {
    let mut history = History::default();
    for name in ["/dl/a", "/dl/b", "/dl/c"] {
        history.remember(name);
    }
    history.remember("/dl/b");
    let names: Vec<&str> = history.entries.iter().map(|e| e.name.as_str()).collect();
    assert_eq!(names, vec!["b", "c", "a"]);
}

#[test]
fn a_path_that_was_split_elsewhere_is_taken_as_it_is() {
    let mut history = History::default();
    history.remember_split(&FilePath::split("/dl/x/ролик.mkv"));
    assert_eq!(history.entries[0].name, "ролик.mkv");
    assert_eq!(history.entries[0].dir.as_deref(), Some("/dl/x"));
    assert_eq!(history.entries[0].dir_display, "/dl/x");
}

#[test]
fn a_path_written_otherwise_is_the_same_file() {
    let mut history = History::default();
    history.remember("/dl/a.mp4");
    for path in ["/dl//a.mp4", "/dl/./a.mp4", "/dl/a.mp4/", "//dl/a.mp4"] {
        history.remember(path);
        assert_eq!(history.entries.len(), 1, "{path}");
        assert_eq!(history.entries[0].path.path, path);
    }
    for path in ["dl/a.mp4", "./dl/a.mp4", "/dl/../dl/a.mp4", "/dl/b.mp4", "/DL/a.mp4"] {
        let before = history.entries.len();
        history.remember(path);
        assert_eq!(history.entries.len(), before + 1, "{path}");
    }
}

#[test]
fn a_path_is_split_into_its_parts() {
    let parts = |path: &str| format!("{:?}", FilePath::split(path).parts);
    assert_eq!(parts("/dl//a.mp4"), "[Root, Name(\"dl\"), Name(\"a.mp4\")]");
    assert_eq!(parts("./a/./../b/"), "[Current, Name(\"a\"), Up, Name(\"b\")]");
    assert_eq!(parts("/."), "[Root]");
    assert_eq!(parts("..."), "[Name(\"...\")]");
    assert_eq!(parts(""), "[]");
    let file = FilePath::split("/dl/a.mp4");
    assert!(file.clone() == file);
    assert!(file != FilePath::split("/dl/b.mp4"));
}
