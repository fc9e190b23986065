//! What ffprobe tells of a sound file.
use crate::json;
use crate::json::Json;
use crate::metadata::tag;
use crate::metadata::tag::{Tag, TagText};
use crate::text;
use crate::units;
use vstd::prelude::*;

verus! {

/// What a report of ffprobe holds, as far as it is shown.
#[derive(Debug, PartialEq, Eq)]
pub struct ProbeReport {
    /// The length in seconds, as a decimal fraction.
    pub duration: Option<String>,
    /// Bits a second.
    pub bit_rate: Option<String>,
    /// Tags by name.
    pub tags: Vec<(String, String)>,
    /// Whether a picture is embedded: it comes as a video stream.
    pub has_cover: bool,
}

/// What a [`ProbeReport`] says.
#[verifier::ext_equal]
pub struct Probe {
    pub duration: Option<Seq<char>>,
    pub bit_rate: Option<Seq<char>>,
    pub tags: Seq<(Seq<char>, Seq<char>)>,
    pub has_cover: bool,
}

/// What a list of named texts says.
pub open spec fn pairs(list: Seq<(String, String)>) -> Seq<(Seq<char>, Seq<char>)> {
    list.map_values(|p: (String, String)| (p.0@, p.1@))
}

impl View for ProbeReport {
    type V = Probe;

    open spec fn view(&self) -> Probe {
        Probe {
            duration: text::said(self.duration),
            bit_rate: text::said(self.bit_rate),
            tags: pairs(self.tags@),
            has_cover: self.has_cover,
        }
    }
}

/// The text under a key of an object.
pub open spec fn member_string(value: Json, key: Seq<char>) -> Option<Seq<char>> {
    match value.member(key) {
        Some(v) => v.text(),
        None => None,
    }
}

/// How a tag is written: a string as it is, any other value as JSON.
pub open spec fn tag_text(value: Json) -> Seq<char> {
    match value.text() {
        Some(s) => s,
        None => json::json_written(value),
    }
}

/// Whether one of the streams `i..` is video.
pub open spec fn any_video(streams: Seq<Json>, i: int) -> bool {
    exists|k: int|
        i <= k < streams.len() && member_string(#[trigger] streams[k], "codec_type"@) == Some(
            "video"@,
        )
}

/// The entries of an object with each value as it is written.
pub open spec fn written(entries: Seq<(Seq<char>, Json)>) -> Seq<(Seq<char>, Seq<char>)> {
    entries.map_values(|e: (Seq<char>, Json)| (e.0, tag_text(e.1)))
}

/// The tags of the object "tags" in `format`.
pub open spec fn format_tags(format: Json) -> Seq<(Seq<char>, Seq<char>)> {
    match format.member("tags"@) {
        Some(tags) => match tags.entries() {
            Some(entries) => written(entries),
            None => Seq::empty(),
        },
        None => Seq::empty(),
    }
}

/// What the JSON value `root` says, read as a report.
pub open spec fn report_of(root: Json) -> Probe {
    let has_cover = match root.member("streams"@) {
        Some(streams) => match streams.items() {
            Some(list) => any_video(list, 0),
            None => false,
        },
        None => false,
    };
    match root.member("format"@) {
        Some(format) => Probe {
            duration: member_string(format, "duration"@),
            bit_rate: member_string(format, "bit_rate"@),
            tags: format_tags(format),
            has_cover,
        },
        None => Probe { duration: None, bit_rate: None, tags: Seq::empty(), has_cover },
    }
}

fn string_member(value: &serde_json::Value, key: &str) -> (r: Option<String>)
    ensures
        text::said(r) == member_string(json::json_of(*value), key@),
{
    match json::member(value, key) {
        Some(v) => json::string(v),
        None => None,
    }
}

fn read_tags(format: &serde_json::Value) -> (r: Vec<(String, String)>)
    ensures
        pairs(r@) == format_tags(json::json_of(*format)),
{
    let mut out: Vec<(String, String)> = Vec::new();
    assert(pairs(out@) =~= Seq::empty());
    let tags = match json::member(format, "tags") {
        Some(tags) => tags,
        None => return out,
    };
    let list = match json::entries(tags) {
        Some(list) => list,
        None => return out,
    };
    let ghost whole = json::pairs_held(list@);
    let mut i: usize = 0;
    while i < list.len()
        invariant
            i <= list@.len(),
            whole == json::pairs_held(list@),
            pairs(out@) == written(whole.take(i as int)),
        decreases list@.len() - i,
    {
        let (key, value) = (&list[i].0, list[i].1);
        let shown = match json::string(value) {
            Some(s) => s,
            None => json::compact(value),
        };
        assert(whole[i as int] == (key@, json::json_of(*value)));
        let ghost next = (key@, tag_text(json::json_of(*value)));
        let ghost before = pairs(out@);
        out.push((key.clone(), shown));
        assert(pairs(out@) =~= before.push(next));
        assert(written(whole.take(i + 1)) =~= written(whole.take(i as int)).push(next));
        i += 1;
    }
    assert(whole.take(list@.len() as int) =~= whole);
    out
}

fn has_video(root: &serde_json::Value) -> (r: bool)
    ensures
        r == report_of(json::json_of(*root)).has_cover,
{
    let streams = match json::member(root, "streams") {
        Some(streams) => streams,
        None => return false,
    };
    let list = match json::items(streams) {
        Some(list) => list,
        None => return false,
    };
    let ghost values = json::all_held(list@);
    let mut i: usize = 0;
    while i < list.len()
        invariant
            i <= list@.len(),
            values == json::all_held(list@),
            any_video(values, 0) == any_video(values, i as int),
            report_of(json::json_of(*root)).has_cover == any_video(values, 0),
        decreases list@.len() - i,
    {
        assert(values[i as int] == json::json_of(list@[i as int]));
        if let Some(codec) = string_member(&list[i], "codec_type") {
            if text::same_text(codec.as_str(), "video") {
                assert(member_string(values[i as int], "codec_type"@) == Some("video"@));
                return true;
            }
        }
        i += 1;
    }
    false
}

/// Reads a report from a JSON value.
pub fn report_from(root: &serde_json::Value) -> (r: ProbeReport)
    ensures
        r@ == report_of(json::json_of(*root)),
{
    let has_cover = has_video(root);
    match json::member(root, "format") {
        Some(format) => ProbeReport {
            duration: string_member(format, "duration"),
            bit_rate: string_member(format, "bit_rate"),
            tags: read_tags(format),
            has_cover,
        },
        None => {
            let tags: Vec<(String, String)> = Vec::new();
            assert(pairs(tags@) =~= Seq::empty());
            ProbeReport { duration: None, bit_rate: None, tags, has_cover }
        },
    }
}

/// Reads the output of ffprobe.
pub fn read_report(output: &[u8]) -> (r: Result<ProbeReport, String>)
    ensures
        match (r, json::json_parsed(text::decoded(output@))) {
            (Ok(report), Some(root)) => report@ == report_of(root),
            (Err(e), None) => e@ == "ffprobe вернул неразборчивый ответ."@,
            _ => false,
        },
{
    let document = text::utf8_lossy(output);
    match json::parse(document.as_str()) {
        Ok(root) => Ok(report_from(&root)),
        Err(_) => Err("ffprobe вернул неразборчивый ответ.".to_owned()),
    }
}

/// The name under which an ID3 tag is shown: a name of ours for the usual ones, whatever
/// their letters' size, and its own for any other.
pub open spec fn id3_label(key: Seq<char>) -> Seq<char> {
    let k = text::lowered(key);
    if k == "title"@ {
        "Название"@
    } else if k == "artist"@ {
        "Исполнитель"@
    } else if k == "album"@ {
        "Альбом"@
    } else if k == "album_artist"@ {
        "Исполнитель альбома"@
    } else if k == "date"@ {
        "Год"@
    } else if k == "track"@ {
        "Трек"@
    } else if k == "genre"@ {
        "Жанр"@
    } else if k == "comment"@ {
        "Комментарий"@
    } else if k == "composer"@ {
        "Композитор"@
    } else if k == "encoder"@ {
        "Кодировщик"@
    } else if k == "copyright"@ {
        "Авторские права"@
    } else if k == "publisher"@ {
        "Издатель"@
    } else if k == "language"@ {
        "Язык"@
    } else if k == "lyrics"@ {
        "Текст песни"@
    } else {
        key
    }
}

pub fn id3_name(key: &str) -> (r: String)
    ensures
        r@ == id3_label(key@),
{
    let small = text::lower(key);
    let k = small.as_str();
    if text::same_text(k, "title") {
        "Название".to_owned()
    } else if text::same_text(k, "artist") {
        "Исполнитель".to_owned()
    } else if text::same_text(k, "album") {
        "Альбом".to_owned()
    } else if text::same_text(k, "album_artist") {
        "Исполнитель альбома".to_owned()
    } else if text::same_text(k, "date") {
        "Год".to_owned()
    } else if text::same_text(k, "track") {
        "Трек".to_owned()
    } else if text::same_text(k, "genre") {
        "Жанр".to_owned()
    } else if text::same_text(k, "comment") {
        "Комментарий".to_owned()
    } else if text::same_text(k, "composer") {
        "Композитор".to_owned()
    } else if text::same_text(k, "encoder") {
        "Кодировщик".to_owned()
    } else if text::same_text(k, "copyright") {
        "Авторские права".to_owned()
    } else if text::same_text(k, "publisher") {
        "Издатель".to_owned()
    } else if text::same_text(k, "language") {
        "Язык".to_owned()
    } else if text::same_text(k, "lyrics") {
        "Текст песни".to_owned()
    } else {
        key.to_owned()
    }
}

/// How the length of a sound is shown.
pub open spec fn duration_tags(secs: Option<u64>) -> Seq<TagText> {
    match secs {
        Some(s) => seq![tag::said("Длительность"@, units::duration(s as nat))],
        None => Seq::empty(),
    }
}

/// How a bit rate is shown, where it is a number.
pub open spec fn rate_tags(bit_rate: Option<Seq<char>>) -> Seq<TagText> {
    match bit_rate {
        Some(rate) => match text::number(rate) {
            Some(bps) => seq![
                tag::said("Битрейт"@, text::decimal((bps / 1000) as nat) + " кбит/с"@),
            ],
            None => Seq::empty(),
        },
        None => Seq::empty(),
    }
}

/// How named tags are shown.
pub open spec fn named_tags(tags: Seq<(Seq<char>, Seq<char>)>) -> Seq<TagText> {
    tags.map_values(
        |p: (Seq<char>, Seq<char>)| tag::said(id3_label(p.0), text::shortened(p.1)),
    )
}

/// The tags of a report. `secs` is its length in whole seconds, where it is a number.
pub open spec fn tags(p: Probe, secs: Option<u64>) -> Seq<TagText> {
    duration_tags(secs) + rate_tags(p.bit_rate) + named_tags(p.tags) + (if p.has_cover {
        seq![tag::said("Обложка"@, "встроена в файл"@)]
    } else {
        Seq::empty()
    })
}

pub fn ffprobe_tags(report: &ProbeReport, secs: Option<u64>) -> (r: Vec<Tag>)
    ensures
        tag::texts(r@) == tags(report@, secs),
{
    let mut out: Vec<Tag> = Vec::new();
    assert(tag::texts(out@) =~= Seq::empty());
    if let Some(s) = secs {
        tag::push_tag(&mut out, "Длительность", units::human_duration(s));
    }
    assert(tag::texts(out@) =~= duration_tags(secs));
    if let Some(rate) = &report.bit_rate {
        if let Some(bps) = text::parse_number(rate.as_str()) {
            let mut shown = text::decimal_text(bps / 1000);
            shown.append(" кбит/с");
            tag::push_tag(&mut out, "Битрейт", shown);
        }
    }
    let ghost top = duration_tags(secs) + rate_tags(report@.bit_rate);
    assert(tag::texts(out@) =~= top);
    let ghost named = report@.tags;
    let mut i: usize = 0;
    while i < report.tags.len()
        invariant
            i <= report.tags@.len(),
            named == pairs(report.tags@),
            tag::texts(out@) == top + named_tags(named.take(i as int)),
        decreases report.tags@.len() - i,
    {
        let name = id3_name(report.tags[i].0.as_str());
        let value = text::truncate(report.tags[i].1.as_str());
        assert(named[i as int] == (report.tags@[i as int].0@, report.tags@[i as int].1@));
        tag::push_tag(&mut out, name.as_str(), value);
        i += 1;
        assert(tag::texts(out@) =~= top + named_tags(named.take(i as int)));
    }
    assert(named.take(report.tags@.len() as int) =~= named);
    if report.has_cover {
        tag::push_tag(&mut out, "Обложка", "встроена в файл".to_owned());
    }
    assert(tag::texts(out@) =~= tags(report@, secs));
    out
}

/// The value under a key of an object is that of its first entry with that key; any other value
/// has none.
pub proof fn member_is_found_by_its_key(
    entries: Seq<(Seq<char>, Json)>,
    key: Seq<char>,
    from: int,
    k: int,
)
    requires
        0 <= from <= entries.len(),
    ensures
        from <= k < entries.len() && entries[k].0 == key && (forall|i: int|
            from <= i < k ==> (#[trigger] entries[i]).0 != key) ==> json::entry_under(
            entries,
            key,
            from,
        ) == Some(entries[k].1),
        (forall|i: int| from <= i < entries.len() ==> (#[trigger] entries[i]).0 != key)
            ==> json::entry_under(entries, key, from) is None,
        Json::Object(entries).member(key) == json::entry_under(entries, key, 0),
        Json::Text(key).member(key) is None && Json::Null.member(key) is None,
        Json::Text(key).text() == Some(key) && Json::Null.text() is None && Json::Number(
            key,
        ).text() is None,
        Json::Object(entries).entries() == Some(entries),
    decreases entries.len() - from,
{
    if from < entries.len() {
        member_is_found_by_its_key(entries, key, from + 1, k);
    }
}

/// A report tells the length, the bit rate and the tags of the object "format", and that there
/// is a cover where one of the "streams" is video.
pub proof fn report_is_read_by_its_keys(root: Json, format: Json, streams: Seq<Json>)
    requires
        root.member("format"@) == Some(format),
        root.member("streams"@) == Some(Json::List(streams)),
    ensures
        ({
            let p = report_of(root);
            &&& format.member("duration"@) is Some && format.member("duration"@)->0 is Text
                ==> p.duration == format.member("duration"@)->0.text()
            &&& format.member("duration"@) is None ==> p.duration is None
            &&& format.member("bit_rate"@) is Some && format.member("bit_rate"@)->0 is Text
                ==> p.bit_rate == format.member("bit_rate"@)->0.text()
            &&& format.member("bit_rate"@) is None ==> p.bit_rate is None
            &&& format.member("tags"@) is None ==> p.tags.len() == 0
            &&& p.has_cover <==> exists|k: int|
                0 <= k < streams.len() && (#[trigger] streams[k]).member("codec_type"@) == Some(
                    Json::Text("video"@),
                )
        }),
{
    if report_of(root).has_cover {
        let k = choose|k: int|
            0 <= k < streams.len() && member_string(#[trigger] streams[k], "codec_type"@) == Some(
                "video"@,
            );
        assert(streams[k].member("codec_type"@) == Some(Json::Text("video"@)));
    }
    if exists|k: int|
        0 <= k < streams.len() && (#[trigger] streams[k]).member("codec_type"@) == Some(
            Json::Text("video"@),
        ) {
        let k = choose|k: int|
            0 <= k < streams.len() && (#[trigger] streams[k]).member("codec_type"@) == Some(
                Json::Text("video"@),
            );
        assert(member_string(streams[k], "codec_type"@) == Some("video"@));
    }
}

/// Every tag of a report is told, by its name and with its value: a text as it is.
pub proof fn tags_of_a_report_are_told(
    root: Json,
    format: Json,
    entries: Seq<(Seq<char>, Json)>,
    i: int,
)
    requires
        root.member("format"@) == Some(format),
        format.member("tags"@) == Some(Json::Object(entries)),
        0 <= i < entries.len(),
    ensures
        report_of(root).tags.len() == entries.len(),
        report_of(root).tags[i].0 == entries[i].0,
        entries[i].1 matches Json::Text(words) ==> report_of(root).tags[i].1 == words,
        !(entries[i].1 is Text) ==> report_of(root).tags[i].1 == json::json_written(entries[i].1),
{
    let all = written(entries);
    assert(report_of(root).tags == all);
    assert(all[i] == (entries[i].0, tag_text(entries[i].1)));
}

/// What a report is shown as: its length, its bit rate in thousands of bits, rounded down, its
/// tags in their order, and its cover, as far as each is there.
pub proof fn report_is_shown_in_order(p: Probe, secs: u64, bps: u64)
    ensures
        ({
            let length = TagText { name: "Длительность"@, value: units::duration(secs as nat) };
            let rate = TagText {
                name: "Битрейт"@,
                value: text::decimal((bps / 1000) as nat) + " кбит/с"@,
            };
            let cover = TagText { name: "Обложка"@, value: "встроена в файл"@ };
            let named = tags(Probe { bit_rate: None, has_cover: false, ..p }, None);
            &&& named.len() == p.tags.len()
            &&& forall|i: int|
                0 <= i < p.tags.len() ==> (#[trigger] named[i]).name == id3_label(p.tags[i].0)
                    && (p.tags[i].1.len() <= 200 ==> named[i].value == p.tags[i].1) && (
                p.tags[i].1.len() > 200 ==> named[i].value == p.tags[i].1.take(200) + "…"@)
            &&& tags(Probe { bit_rate: None, has_cover: false, ..p }, Some(secs)) == seq![length]
                + named
            &&& tags(
                Probe { bit_rate: Some(text::decimal(bps as nat)), has_cover: false, ..p },
                None,
            ) == seq![rate] + named
            &&& tags(Probe { bit_rate: None, has_cover: true, ..p }, None) == named + seq![cover]
            &&& tags(
                Probe { bit_rate: Some(text::decimal(bps as nat)), has_cover: true, ..p },
                Some(secs),
            ) == seq![length, rate] + named + seq![cover]
        }),
{
    reveal_strlit("…");
    text::written_number_is_read_back(bps, Seq::empty(), 0);
    let length = TagText { name: "Длительность"@, value: units::duration(secs as nat) };
    let rate = TagText {
        name: "Битрейт"@,
        value: text::decimal((bps / 1000) as nat) + " кбит/с"@,
    };
    let cover = TagText { name: "Обложка"@, value: "встроена в файл"@ };
    let plain = Probe { bit_rate: None, has_cover: false, ..p };
    let named = named_tags(p.tags);
    assert(tags(plain, None) =~= named);
    assert(tags(plain, Some(secs)) =~= seq![length] + named);
    assert(tags(Probe { bit_rate: Some(text::decimal(bps as nat)), ..plain }, None) =~= seq![rate]
        + named);
    assert(tags(Probe { has_cover: true, ..plain }, None) =~= named + seq![cover]);
    assert(tags(
        Probe { bit_rate: Some(text::decimal(bps as nat)), has_cover: true, ..plain },
        Some(secs),
    ) =~= seq![length, rate] + named + seq![cover]);
    assert forall|i: int| 0 <= i < p.tags.len() implies (#[trigger] named[i]).name == id3_label(
        p.tags[i].0,
    ) && (p.tags[i].1.len() <= 200 ==> named[i].value == p.tags[i].1) && (p.tags[i].1.len() > 200
        ==> named[i].value == p.tags[i].1.take(200) + "…"@) by {
        assert(named[i] == tag::said(id3_label(p.tags[i].0), text::shortened(p.tags[i].1)));
        assert(p.tags[i].1.take(200).push('…') =~= p.tags[i].1.take(200) + "…"@);
    }
}

/// The usual tags of a song are named in words of ours, in letters of any size; any other goes
/// by its own name.
pub proof fn usual_tags_have_names_of_ours(key: Seq<char>)
    ensures
        ({
            let k = text::lowered(key);
            let name = id3_label(key);
            &&& k == "title"@ ==> name == "Название"@
            &&& k == "artist"@ ==> name == "Исполнитель"@
            &&& k == "album"@ ==> name == "Альбом"@
            &&& k == "album_artist"@ ==> name == "Исполнитель альбома"@
            &&& k == "date"@ ==> name == "Год"@
            &&& k == "track"@ ==> name == "Трек"@
            &&& k == "genre"@ ==> name == "Жанр"@
            &&& k == "comment"@ ==> name == "Комментарий"@
            &&& k == "composer"@ ==> name == "Композитор"@
            &&& k == "encoder"@ ==> name == "Кодировщик"@
            &&& k == "copyright"@ ==> name == "Авторские права"@
            &&& k == "publisher"@ ==> name == "Издатель"@
            &&& k == "language"@ ==> name == "Язык"@
            &&& k == "lyrics"@ ==> name == "Текст песни"@
            &&& k != "title"@ && k != "artist"@ && k != "album"@ && k != "album_artist"@ && k
                != "date"@ && k != "track"@ && k != "genre"@ && k != "comment"@ && k != "composer"@
                && k != "encoder"@ && k != "copyright"@ && k != "publisher"@ && k != "language"@
                && k != "lyrics"@ ==> name == key
        }),
{
    reveal_strlit("title");
    reveal_strlit("artist");
    reveal_strlit("album");
    reveal_strlit("album_artist");
    reveal_strlit("date");
    reveal_strlit("track");
    reveal_strlit("genre");
    reveal_strlit("comment");
    reveal_strlit("composer");
    reveal_strlit("encoder");
    reveal_strlit("copyright");
    reveal_strlit("publisher");
    reveal_strlit("language");
    reveal_strlit("lyrics");
    assert("title"@.len() == 5 && "track"@.len() == 5 && "genre"@.len() == 5 && "album"@.len() == 5);
    assert("title"@[1] == 'i' && "track"@[1] == 'r' && "title"@[0] == 't' && "track"@[0] == 't'
        && "genre"@[0] == 'g' && "album"@[0] == 'a');
    assert("artist"@.len() == 6 && "lyrics"@.len() == 6 && "artist"@[0] == 'a' && "lyrics"@[0]
        == 'l');
    assert("album_artist"@.len() == 12 && "date"@.len() == 4);
    assert("comment"@.len() == 7 && "encoder"@.len() == 7 && "comment"@[0] == 'c' && "encoder"@[0]
        == 'e');
    assert("composer"@.len() == 8 && "language"@.len() == 8 && "composer"@[0] == 'c'
        && "language"@[0] == 'l');
    assert("copyright"@.len() == 9 && "publisher"@.len() == 9 && "copyright"@[0] == 'c'
        && "publisher"@[0] == 'p');
}

} // verus!
