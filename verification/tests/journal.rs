//! The log and the errors of the graphics card.
use savio::journal::{gpu_error_line, GpuErrors, Log, GPU_ERROR_LIMIT, LOG_LIMIT};

const TOO_LARGE: &str = "Validation Error\n\nCaused by:\n  In Surface::configure\n    \
     `Surface` width and height must be within the maximum supported texture size. \
     Requested was (504, 8193), maximum extent for either dimension is 8192.";

#[test]
fn oversized_window_is_explained_in_russian() {
    let line = gpu_error_line(TOO_LARGE);
    assert!(line.contains("больше, чем может отрисовать"), "{line}");
    assert!(!line.contains("Surface"), "{line}");
}

#[test]
fn unknown_gpu_error_keeps_its_own_text() {
    let line = gpu_error_line("Validation Error: something else entirely");
    assert!(line.starts_with("Ошибка отрисовки: "), "{line}");
    assert!(line.contains("something else entirely"), "{line}");
}

#[test]
fn repeated_gpu_errors_are_collapsed_and_capped() {
    let mut errors = GpuErrors::default();
    for _ in 0..100 {
        errors.push(TOO_LARGE.to_owned());
    }
    assert_eq!(errors.take().len(), 1);

    for i in 0..100 {
        errors.push(format!("ошибка {i}"));
    }
    assert_eq!(errors.take().len(), GPU_ERROR_LIMIT);
}

#[test]
fn different_wgpu_messages_about_one_limit_give_the_same_line() {
    let viewport = "Validation Error\n\nCaused by:\n  In a CommandEncoder, label = 'encoder'\n    \
         In a set_viewport command\n      Viewport size { w: 9984, h: 381 } greater than \
         device's requested `max_texture_dimension_2d` limit 8192, or less than zero";
    assert_eq!(gpu_error_line(TOO_LARGE), gpu_error_line(viewport));
}

#[test]
fn quiet_frame_takes_nothing() {
    let mut errors = GpuErrors::default();
    assert!(errors.take().is_empty());
}

#[test]
fn what_was_taken_is_not_taken_again() {
    let mut errors = GpuErrors::default();
    errors.push("a".to_owned());
    errors.push("b".to_owned());
    assert_eq!(errors.take(), vec!["a".to_owned(), "b".to_owned()]);
    assert!(errors.take().is_empty());
}

#[test]
fn the_log_keeps_the_newest_lines() {
    let mut log = Log::new();
    for i in 0..LOG_LIMIT + 3 {
        log.push_log(format!("строка {i}"));
    }
    assert_eq!(log.lines.len(), LOG_LIMIT);
    assert_eq!(log.lines[0], "строка 3");
    assert_eq!(log.lines[LOG_LIMIT - 1], format!("строка {}", LOG_LIMIT + 2));
    log.clear();
    assert!(log.lines.is_empty());
}

#[test]
fn one_limit_is_written_to_the_log_once() {
    let mut log = Log::new();
    log.drain_gpu_errors(vec![TOO_LARGE.to_owned(), TOO_LARGE.to_owned()]);
    assert_eq!(log.lines.len(), 1);
    log.drain_gpu_errors(vec![TOO_LARGE.to_owned()]);
    assert_eq!(log.lines.len(), 1);
    log.drain_gpu_errors(vec!["нечто иное".to_owned(), TOO_LARGE.to_owned()]);
    assert_eq!(log.lines.len(), 3);
    assert_eq!(log.lines[1], "Ошибка отрисовки: нечто иное");
}

#[test]
fn errors_of_the_card_do_not_outgrow_the_log() {
    let mut log = Log::new();
    for i in 0..LOG_LIMIT {
        log.push_log(format!("строка {i}"));
    }
    log.drain_gpu_errors(vec!["беда".to_owned()]);
    assert_eq!(log.lines.len(), LOG_LIMIT);
    assert_eq!(log.lines[0], "строка 1");
    assert_eq!(log.lines[LOG_LIMIT - 1], "Ошибка отрисовки: беда");
}
