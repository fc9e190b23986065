//! What ffprobe tells of a sound file.
use savio::metadata::probe::{ffprobe_tags, id3_name, read_report, report_from};
use savio::metadata::tag::Tag;

const REPORT: &str = r#"{
    "streams": [{"codec_type": "audio"}, {"codec_type": "video"}],
    "format": {
        "duration": "65.31",
        "bit_rate": "192000",
        "tags": {"title": "Песня", "TRACK": 7, "custom_Key": "значение"}
    }
}"#;

fn value_of<'a>(tags: &'a [Tag], name: &str) -> Option<&'a str> {
    tags.iter().find(|t| t.name == name).map(|t| t.value.as_str())
}

#[test]
fn a_report_is_read_and_shown() {
    let report = read_report(REPORT.as_bytes()).unwrap();
    assert_eq!(report.duration.as_deref(), Some("65.31"));
    assert_eq!(report.bit_rate.as_deref(), Some("192000"));
    assert!(report.has_cover);
    assert_eq!(report.tags.len(), 3);

    let tags = ffprobe_tags(&report, Some(65));
    assert_eq!(value_of(&tags, "Длительность"), Some("1:05"));
    assert_eq!(value_of(&tags, "Битрейт"), Some("192 кбит/с"));
    assert_eq!(value_of(&tags, "Название"), Some("Песня"));
    assert_eq!(value_of(&tags, "Трек"), Some("7"), "число пишется как в ответе");
    assert_eq!(value_of(&tags, "custom_Key"), Some("значение"));
    assert_eq!(value_of(&tags, "Обложка"), Some("встроена в файл"));
    assert_eq!(tags.len(), 6);
}

#[test]
fn what_is_not_told_is_not_shown() {
    let report = read_report(b"{\"format\": {\"bit_rate\": \"?\"}}").unwrap();
    assert!(ffprobe_tags(&report, None).is_empty());
    let report = read_report(b"[]").unwrap();
    assert!(!report.has_cover && report.tags.is_empty());
    assert_eq!(report.duration, None);
    let odd = read_report(b"{\"streams\": 5, \"format\": {\"duration\": 5, \"tags\": []}}").unwrap();
    assert!(!odd.has_cover && odd.tags.is_empty());
    assert_eq!(odd.duration, None, "длительность — строка, а не число");
}

#[test]
fn an_answer_that_is_no_report_is_an_error() {
    for junk in [b"".as_slice(), b"not json", b"{\"format\":"] {
        assert_eq!(
            read_report(junk).unwrap_err(),
            "ffprobe вернул неразборчивый ответ."
        );
    }
}

#[test]
fn usual_tags_have_names_of_ours() {
    assert_eq!(id3_name("title"), "Название");
    assert_eq!(id3_name("ARTIST"), "Исполнитель");
    assert_eq!(id3_name("lyrics"), "Текст песни");
    assert_eq!(id3_name("TSRC"), "TSRC");
}

#[test]
fn a_value_that_was_read_elsewhere_gives_the_same_report() {
    let value: serde_json::Value = serde_json::from_str(REPORT).unwrap();
    assert_eq!(Ok(report_from(&value)), read_report(REPORT.as_bytes()));
}

#[test]
fn values_other_than_text_are_written_as_json() {
    let report = read_report(
        b"{\"format\": {\"tags\": {\"a\": null, \"b\": true, \"c\": 1.5, \"d\": [1, \"x\"], \"e\": {\"k\": 2}}}}",
    )
    .unwrap();
    let values: Vec<&str> = report.tags.iter().map(|(_, v)| v.as_str()).collect();
    assert_eq!(values, vec!["null", "true", "1.5", "[1,\"x\"]", "{\"k\":2}"]);
}
