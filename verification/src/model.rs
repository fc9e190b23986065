//! What a download is asked for and what is known of it.
use crate::cut::Section;
use crate::paths;
use crate::paths::{FilePath, Split};
use crate::text;
use vstd::prelude::*;

verus! {

/// The number of a download, never used twice in a run.
pub type DownloadId = u32;

/// The number of what is no download: an installation, work on metadata.
pub const NO_DOWNLOAD: DownloadId = 0;

/// What a download is saved as.
#[derive(Debug, Clone, Copy, PartialEq, Eq, Structural)]
pub enum Format {
    Mp4,
    Mp3,
}

impl Format {
    pub open spec fn short_name(self) -> Seq<char> {
        match self {
            Format::Mp4 => "MP4"@,
            Format::Mp3 => "MP3"@,
        }
    }

    pub fn short(self) -> (r: &'static str)
        ensures
            r@ == self.short_name(),
    {
        match self {
            Format::Mp4 => "MP4",
            Format::Mp3 => "MP3",
        }
    }
}

/// How good a download is to be: a step of height for a video, of bit rate for sound.
#[derive(Debug, Clone, Copy, PartialEq, Eq, Structural)]
pub enum Quality {
    Best,
    P2160,
    P1440,
    P1080,
    P720,
    P480,
}

impl Quality {
    /// The step in words, with its unit.
    pub open spec fn name(self, format: Format) -> Seq<char> {
        match (format, self) {
            (_, Quality::Best) => "лучшее"@,
            (Format::Mp4, Quality::P2160) => "2160p"@,
            (Format::Mp4, Quality::P1440) => "1440p"@,
            (Format::Mp4, Quality::P1080) => "1080p"@,
            (Format::Mp4, Quality::P720) => "720p"@,
            (Format::Mp4, Quality::P480) => "480p"@,
            (Format::Mp3, Quality::P2160) => "320 кбит/с"@,
            (Format::Mp3, Quality::P1440) => "256 кбит/с"@,
            (Format::Mp3, Quality::P1080) => "192 кбит/с"@,
            (Format::Mp3, Quality::P720) => "128 кбит/с"@,
            (Format::Mp3, Quality::P480) => "96 кбит/с"@,
        }
    }

    pub fn label_with_unit(self, format: Format) -> (r: &'static str)
        ensures
            r@ == self.name(format),
    {
        match (format, self) {
            (_, Quality::Best) => "лучшее",
            (Format::Mp4, Quality::P2160) => "2160p",
            (Format::Mp4, Quality::P1440) => "1440p",
            (Format::Mp4, Quality::P1080) => "1080p",
            (Format::Mp4, Quality::P720) => "720p",
            (Format::Mp4, Quality::P480) => "480p",
            (Format::Mp3, Quality::P2160) => "320 кбит/с",
            (Format::Mp3, Quality::P1440) => "256 кбит/с",
            (Format::Mp3, Quality::P1080) => "192 кбит/с",
            (Format::Mp3, Quality::P720) => "128 кбит/с",
            (Format::Mp3, Quality::P480) => "96 кбит/с",
        }
    }

    /// The height that a step stands for; none for the best there is.
    pub open spec fn height(self) -> Option<u32> {
        match self {
            Quality::Best => None,
            Quality::P2160 => Some(2160),
            Quality::P1440 => Some(1440),
            Quality::P1080 => Some(1080),
            Quality::P720 => Some(720),
            Quality::P480 => Some(480),
        }
    }

    pub fn max_height(self) -> (r: Option<u32>)
        ensures
            r == self.height(),
    {
        match self {
            Quality::Best => None,
            Quality::P2160 => Some(2160),
            Quality::P1440 => Some(1440),
            Quality::P1080 => Some(1080),
            Quality::P720 => Some(720),
            Quality::P480 => Some(480),
        }
    }
}

/// What is embedded in the file.
#[derive(Debug, Clone, Copy, PartialEq, Eq, Structural)]
pub struct DownloadOptions {
    pub embed_subs: bool,
    pub auto_subs: bool,
    pub embed_thumbnail: bool,
    pub embed_metadata: bool,
}

impl Default for DownloadOptions {
    fn default() -> (r: DownloadOptions)
        ensures
            r == (DownloadOptions {
                embed_subs: false,
                auto_subs: false,
                embed_thumbnail: false,
                embed_metadata: false,
            }),
    {
        DownloadOptions {
            embed_subs: false,
            auto_subs: false,
            embed_thumbnail: false,
            embed_metadata: false,
        }
    }
}

impl Section {
    /// Whether a piece is asked for and not the whole.
    pub fn any(self) -> (r: bool)
        ensures
            r == (self.start is Some || self.end is Some),
    {
        self.start.is_some() || self.end.is_some()
    }
}

impl Default for Section {
    fn default() -> (r: Section)
        ensures
            r == (Section { start: None, end: None }),
    {
        Section { start: None, end: None }
    }
}

/// Where the login to a site is taken from.
#[derive(Debug, Clone, Copy, PartialEq, Eq, Structural)]
pub enum CookieSource {
    Off,
    File,
    Chrome,
    Chromium,
    Edge,
    Firefox,
    Safari,
}

impl CookieSource {
    /// Whether any login is used.
    pub fn any(self) -> (r: bool)
        ensures
            r == (self != CookieSource::Off),
    {
        self != CookieSource::Off
    }
}

impl Default for CookieSource {
    fn default() -> (r: CookieSource)
        ensures
            r == CookieSource::Off,
    {
        CookieSource::Off
    }
}

/// The language of the subtitles.
#[derive(Debug, PartialEq, Eq)]
pub enum SubLang {
    /// The language of the recording.
    Original,
    /// The language with this code.
    Code(String),
}

/// What a [`SubLang`] says.
pub enum Language {
    Original,
    Code(Seq<char>),
}

impl View for SubLang {
    type V = Language;

    open spec fn view(&self) -> Language {
        match *self {
            SubLang::Original => Language::Original,
            SubLang::Code(code) => Language::Code(code@),
        }
    }
}

impl Clone for SubLang {
    fn clone(&self) -> (r: SubLang)
        ensures
            r@ == self@,
    {
        match self {
            SubLang::Original => SubLang::Original,
            SubLang::Code(code) => SubLang::Code(code.clone()),
        }
    }
}

impl Default for SubLang {
    fn default() -> (r: SubLang)
        ensures
            r@ == Language::Original,
    {
        SubLang::Original
    }
}

/// What a download is asked for.
#[derive(Debug, PartialEq, Eq)]
pub struct Request {
    pub url: String,
    pub format: Format,
    pub quality: Quality,
    pub options: DownloadOptions,
    pub section: Section,
    pub cookies: CookieSource,
    pub cookie_file: Option<FilePath>,
    pub sub_lang: SubLang,
}

/// What a [`Request`] says.
#[verifier::ext_equal]
pub struct Wish {
    pub url: Seq<char>,
    pub format: Format,
    pub quality: Quality,
    pub options: DownloadOptions,
    pub section: Section,
    pub cookies: CookieSource,
    pub cookie_file: Option<Split>,
    pub sub_lang: Language,
}

impl View for Request {
    type V = Wish;

    open spec fn view(&self) -> Wish {
        Wish {
            url: self.url@,
            format: self.format,
            quality: self.quality,
            options: self.options,
            section: self.section,
            cookies: self.cookies,
            cookie_file: paths::split_of(self.cookie_file),
            sub_lang: self.sub_lang@,
        }
    }
}

impl Clone for Request {
    fn clone(&self) -> (r: Request)
        ensures
            r@ == self@,
    {
        Request {
            url: self.url.clone(),
            format: self.format,
            quality: self.quality,
            options: self.options,
            section: self.section,
            cookies: self.cookies,
            cookie_file: paths::copy_option(&self.cookie_file),
            sub_lang: self.sub_lang.clone(),
        }
    }
}

/// A track of subtitles: the code of its language and the name that is shown.
#[derive(Debug, PartialEq, Eq)]
pub struct SubtitleTrack {
    pub code: String,
    pub label: String,
    /// Whether the track was recognised by a machine.
    pub auto: bool,
}

/// What a site tells of a recording.
#[derive(Debug, PartialEq, Eq)]
pub struct MediaInfo {
    pub title: Option<String>,
    pub uploader: Option<String>,
    /// The length in whole seconds.
    pub duration_secs: Option<u64>,
    /// The heights that the recording is offered in.
    pub heights: Vec<u32>,
    pub subtitle_tracks: Vec<SubtitleTrack>,
}

/// What a [`MediaInfo`] says.
#[verifier::ext_equal]
pub struct Facts {
    pub title: Option<Seq<char>>,
    pub uploader: Option<Seq<char>>,
    pub duration_secs: Option<u64>,
    pub heights: Seq<u32>,
    pub subtitle_tracks: Seq<(Seq<char>, Seq<char>, bool)>,
}

/// What a list of tracks says.
pub open spec fn tracks(list: Seq<SubtitleTrack>) -> Seq<(Seq<char>, Seq<char>, bool)> {
    list.map_values(|t: SubtitleTrack| (t.code@, t.label@, t.auto))
}

/// The greatest of the heights `..k`.
pub open spec fn greatest(heights: Seq<u32>, k: int) -> Option<u32>
    decreases k,
{
    if k <= 0 {
        None
    } else {
        match greatest(heights, k - 1) {
            Some(h) if h >= heights[k - 1] => Some(h),
            _ => Some(heights[k - 1]),
        }
    }
}

/// The name of the track with a code, among the tracks `i..`.
pub open spec fn track_label(list: Seq<(Seq<char>, Seq<char>, bool)>, code: Seq<char>, i: int) -> Option<
    Seq<char>,
>
    decreases list.len() - i,
{
    if i < 0 || i >= list.len() {
        None
    } else if list[i].0 == code {
        Some(list[i].1)
    } else {
        track_label(list, code, i + 1)
    }
}

impl View for MediaInfo {
    type V = Facts;

    open spec fn view(&self) -> Facts {
        Facts {
            title: text::said(self.title),
            uploader: text::said(self.uploader),
            duration_secs: self.duration_secs,
            heights: self.heights@,
            subtitle_tracks: tracks(self.subtitle_tracks@),
        }
    }
}

impl MediaInfo {
    /// The greatest height on offer.
    pub fn max_height(&self) -> (r: Option<u32>)
        ensures
            r == self@.max_height(),
    {
        let mut best: Option<u32> = None;
        let mut i: usize = 0;
        while i < self.heights.len()
            invariant
                i <= self.heights@.len(),
                best == greatest(self.heights@, i as int),
            decreases self.heights@.len() - i,
        {
            let h = self.heights[i];
            best = match best {
                Some(b) => if b >= h {
                    Some(b)
                } else {
                    Some(h)
                },
                None => Some(h),
            };
            i += 1;
        }
        best
    }

    /// The name of the subtitles in the language with this code.
    pub fn subtitle_label(&self, code: &str) -> (r: Option<String>)
        ensures
            text::said(r) == track_label(self@.subtitle_tracks, code@, 0),
    {
        let ghost list = self@.subtitle_tracks;
        let mut i: usize = 0;
        while i < self.subtitle_tracks.len()
            invariant
                i <= self.subtitle_tracks@.len(),
                list == tracks(self.subtitle_tracks@),
                track_label(list, code@, 0) == track_label(list, code@, i as int),
            decreases self.subtitle_tracks@.len() - i,
        {
            let t = &self.subtitle_tracks[i];
            assert(list[i as int] == (t.code@, t.label@, t.auto));
            if text::same_text(t.code.as_str(), code) {
                return Some(t.label.clone());
            }
            i += 1;
        }
        None
    }
}

/// A row of the list that a language is chosen from.
#[derive(Debug, Clone, Copy, PartialEq, Eq, Structural)]
pub enum SubtitleRow {
    /// The heading of the tracks that follow: whether they were recognised by a machine.
    Heading(bool),
    /// The track with this index.
    Track(usize),
}

/// What a row says: a heading, or the index of a track.
pub enum RowText {
    Heading(bool),
    Track(int),
}

impl View for SubtitleRow {
    type V = RowText;

    open spec fn view(&self) -> RowText {
        match *self {
            SubtitleRow::Heading(auto) => RowText::Heading(auto),
            SubtitleRow::Track(i) => RowText::Track(i as int),
        }
    }
}

/// What a list of rows says.
pub open spec fn row_texts(rows: Seq<SubtitleRow>) -> Seq<RowText> {
    rows.map_values(|r: SubtitleRow| r@)
}

/// The heading over the last track that is listed among the tracks `..k`.
pub open spec fn last_heading(
    list: Seq<(Seq<char>, Seq<char>, bool)>,
    allow_auto: bool,
    k: int,
) -> Option<bool>
    decreases k,
{
    if k <= 0 {
        None
    } else if list[k - 1].2 && !allow_auto {
        last_heading(list, allow_auto, k - 1)
    } else {
        Some(list[k - 1].2)
    }
}

/// The list that a language is chosen from, by the tracks `..k`. Tracks of a machine are listed
/// only where they are allowed, and a heading stands wherever the kind changes.
pub open spec fn language_rows(
    list: Seq<(Seq<char>, Seq<char>, bool)>,
    allow_auto: bool,
    k: int,
) -> Seq<RowText>
    decreases k,
{
    if k <= 0 {
        Seq::empty()
    } else {
        let before = language_rows(list, allow_auto, k - 1);
        let auto = list[k - 1].2;
        if auto && !allow_auto {
            before
        } else if last_heading(list, allow_auto, k - 1) == Some(auto) {
            before.push(RowText::Track(k - 1))
        } else {
            before.push(RowText::Heading(auto)).push(RowText::Track(k - 1))
        }
    }
}

impl MediaInfo {
    /// The rows that a language is chosen from, below the one for the language of the recording.
    pub fn subtitle_rows(&self, allow_auto: bool) -> (r: Vec<SubtitleRow>)
        ensures
            row_texts(r@) == language_rows(
                self@.subtitle_tracks,
                allow_auto,
                self@.subtitle_tracks.len() as int,
            ),
    {
        let ghost list = self@.subtitle_tracks;
        let mut rows: Vec<SubtitleRow> = Vec::new();
        let mut group: Option<bool> = None;
        let mut i: usize = 0;
        assert(row_texts(rows@) =~= Seq::empty());
        while i < self.subtitle_tracks.len()
            invariant
                i <= self.subtitle_tracks@.len(),
                list == tracks(self.subtitle_tracks@),
                group == last_heading(list, allow_auto, i as int),
                row_texts(rows@) == language_rows(list, allow_auto, i as int),
            decreases self.subtitle_tracks@.len() - i,
        {
            let auto = self.subtitle_tracks[i].auto;
            assert(list[i as int].2 == auto);
            if allow_auto || !auto {
                let ghost before = row_texts(rows@);
                let same: bool = match group {
                    Some(g) => g == auto,
                    None => false,
                };
                if !same {
                    rows.push(SubtitleRow::Heading(auto));
                    assert(row_texts(rows@) =~= before.push(RowText::Heading(auto)));
                }
                let ghost headed = row_texts(rows@);
                rows.push(SubtitleRow::Track(i));
                assert(row_texts(rows@) =~= headed.push(RowText::Track(i as int)));
                group = Some(auto);
            }
            i += 1;
        }
        rows
    }
}

impl Facts {
    pub open spec fn max_height(self) -> Option<u32> {
        greatest(self.heights, self.heights.len() as int)
    }
}

/// What optional facts say.
pub open spec fn facts(info: Option<MediaInfo>) -> Option<Facts> {
    match info {
        Some(i) => Some(i@),
        None => None,
    }
}

impl Clone for MediaInfo {
    fn clone(&self) -> (r: MediaInfo)
        ensures
            r@ == self@,
    {
        let mut heights: Vec<u32> = Vec::new();
        heights.extend_from_slice(self.heights.as_slice());
        assert(heights@ =~= self.heights@);
        let mut list: Vec<SubtitleTrack> = Vec::new();
        let mut i: usize = 0;
        assert(tracks(list@) =~= tracks(self.subtitle_tracks@).take(0));
        while i < self.subtitle_tracks.len()
            invariant
                i <= self.subtitle_tracks@.len(),
                tracks(list@) == tracks(self.subtitle_tracks@).take(i as int),
            decreases self.subtitle_tracks@.len() - i,
        {
            let t = &self.subtitle_tracks[i];
            let ghost before = tracks(list@);
            list.push(SubtitleTrack { code: t.code.clone(), label: t.label.clone(), auto: t.auto });
            assert(tracks(list@) =~= before.push((t.code@, t.label@, t.auto)));
            assert(tracks(self.subtitle_tracks@).take(i + 1) =~= tracks(
                self.subtitle_tracks@,
            ).take(i as int).push((t.code@, t.label@, t.auto)));
            i += 1;
        }
        assert(tracks(self.subtitle_tracks@).take(i as int) =~= tracks(self.subtitle_tracks@));
        MediaInfo {
            title: text::copy_option(&self.title),
            uploader: text::copy_option(&self.uploader),
            duration_secs: self.duration_secs,
            heights,
            subtitle_tracks: list,
        }
    }
}

impl Default for MediaInfo {
    fn default() -> (r: MediaInfo)
        ensures
            r@ == (Facts {
                title: None,
                uploader: None,
                duration_secs: None,
                heights: Seq::empty(),
                subtitle_tracks: Seq::empty(),
            }),
    {
        let subtitle_tracks: Vec<SubtitleTrack> = Vec::new();
        assert(tracks(subtitle_tracks@) =~= Seq::empty());
        MediaInfo {
            title: None,
            uploader: None,
            duration_secs: None,
            heights: Vec::new(),
            subtitle_tracks,
        }
    }
}

/// Whether two requests ask for the same: the same link in the same form, the same piece of it,
/// with the same login and the same subtitles.
pub open spec fn same_request(a: Request, b: Request) -> bool {
    &&& a.url@ == b.url@
    &&& a.format == b.format
    &&& a.quality == b.quality
    &&& a.options == b.options
    &&& a.section == b.section
    &&& a.cookies == b.cookies
    &&& a.cookie_file is Some <==> b.cookie_file is Some
    &&& a.cookie_file is Some ==> a.cookie_file->0.path@ == b.cookie_file->0.path@
    &&& same_language(a.sub_lang, b.sub_lang)
}

/// Whether two languages are the same: both that of the recording, or both of one code.
pub open spec fn same_language(a: SubLang, b: SubLang) -> bool {
    match (a, b) {
        (SubLang::Original, SubLang::Original) => true,
        (SubLang::Code(x), SubLang::Code(y)) => x@ == y@,
        _ => false,
    }
}

/// Requests that say the same ask for the same, in every part.
pub proof fn requests_that_say_the_same_ask_for_the_same(a: Request, b: Request)
    requires
        a@ == b@,
    ensures
        same_request(a, b),
{
}

/// Facts tell all that a site told of a recording.
pub proof fn facts_tell_what_the_site_told(info: MediaInfo)
    ensures
        info.title is Some <==> info@.title is Some,
        info.title is Some ==> info@.title->0 == info.title->0@,
        info.uploader is Some <==> info@.uploader is Some,
        info.uploader is Some ==> info@.uploader->0 == info.uploader->0@,
        info@.duration_secs == info.duration_secs,
        info@.heights == info.heights@,
        info@.subtitle_tracks.len() == info.subtitle_tracks@.len(),
        forall|i: int|
            0 <= i < info.subtitle_tracks@.len() ==> (#[trigger] info.subtitle_tracks@[i]).code@
                == info@.subtitle_tracks[i].0 && info.subtitle_tracks@[i].label@
                == info@.subtitle_tracks[i].1 && info.subtitle_tracks@[i].auto
                == info@.subtitle_tracks[i].2,
        facts(Some(info)) == Some(info@),
        facts(None) is None,
{
    assert forall|i: int| 0 <= i < info.subtitle_tracks@.len() implies (
    #[trigger] info.subtitle_tracks@[i]).code@ == info@.subtitle_tracks[i].0
        && info.subtitle_tracks@[i].label@ == info@.subtitle_tracks[i].1
        && info.subtitle_tracks@[i].auto == info@.subtitle_tracks[i].2 by {
        let t = info.subtitle_tracks@[i];
        assert(info@.subtitle_tracks[i] == (t.code@, t.label@, t.auto));
    }
}

proof fn lemma_greatest(heights: Seq<u32>, k: int)
    requires
        0 <= k <= heights.len(),
    ensures
        greatest(heights, k) is Some <==> k > 0,
        forall|i: int| 0 <= i < k ==> (#[trigger] heights[i]) <= greatest(heights, k)->0,
        k > 0 ==> exists|i: int| 0 <= i < k && #[trigger] heights[i] == greatest(heights, k)->0,
    decreases k,
{
    if k > 0 {
        lemma_greatest(heights, k - 1);
        let g = greatest(heights, k)->0;
        if g == heights[k - 1] {
            assert(heights[k - 1] == g);
        } else {
            let i = choose|i: int|
                0 <= i < k - 1 && #[trigger] heights[i] == greatest(heights, k - 1)->0;
            assert(heights[i] == g);
        }
    }
}

/// The greatest height on offer is one of those on offer, and none is greater.
pub proof fn greatest_height_is_on_offer(f: Facts)
    ensures
        f.max_height() is None <==> f.heights.len() == 0,
        f.max_height() matches Some(h) ==> f.heights.contains(h) && forall|i: int|
            0 <= i < f.heights.len() ==> (#[trigger] f.heights[i]) <= h,
{
    let n = f.heights.len() as int;
    lemma_greatest(f.heights, n);
    if n > 0 {
        let i = choose|i: int| 0 <= i < n && #[trigger] f.heights[i] == greatest(f.heights, n)->0;
        assert(f.heights.contains(f.heights[i]));
    }
}

/// The name of a language is that of the first track with its code; none where there is no
/// such track.
pub proof fn language_goes_by_its_first_track(
    list: Seq<(Seq<char>, Seq<char>, bool)>,
    code: Seq<char>,
    from: int,
    k: int,
)
    requires
        0 <= from <= list.len(),
    ensures
        from <= k < list.len() && list[k].0 == code && (forall|i: int|
            from <= i < k ==> (#[trigger] list[i]).0 != code) ==> track_label(list, code, from)
            == Some(list[k].1),
        (forall|i: int| from <= i < list.len() ==> (#[trigger] list[i]).0 != code) ==> track_label(
            list,
            code,
            from,
        ) is None,
    decreases list.len() - from,
{
    if from < list.len() {
        language_goes_by_its_first_track(list, code, from + 1, k);
    }
}

/// The steps of quality, by height for a video and by bit rate for sound.
pub proof fn steps_of_quality(format: Format)
    ensures
        Quality::Best.height() is None && Quality::Best.name(format) == "лучшее"@,
        Quality::P2160.height() == Some(2160u32) && Quality::P2160.name(Format::Mp4) == "2160p"@,
        Quality::P1440.height() == Some(1440u32) && Quality::P1440.name(Format::Mp4) == "1440p"@,
        Quality::P1080.height() == Some(1080u32) && Quality::P1080.name(Format::Mp4) == "1080p"@,
        Quality::P720.height() == Some(720u32) && Quality::P720.name(Format::Mp4) == "720p"@,
        Quality::P480.height() == Some(480u32) && Quality::P480.name(Format::Mp4) == "480p"@,
        Quality::P2160.name(Format::Mp3) == "320 кбит/с"@,
        Quality::P1440.name(Format::Mp3) == "256 кбит/с"@,
        Quality::P1080.name(Format::Mp3) == "192 кбит/с"@,
        Quality::P720.name(Format::Mp3) == "128 кбит/с"@,
        Quality::P480.name(Format::Mp3) == "96 кбит/с"@,
        Format::Mp4.short_name() == "MP4"@,
        Format::Mp3.short_name() == "MP3"@,
{
}

/// A track of subtitles is offered where it was made by a person or those of a machine are
/// allowed, and each that is offered stands once, in its place.
pub proof fn tracks_on_offer_are_listed(
    list: Seq<(Seq<char>, Seq<char>, bool)>,
    allow_auto: bool,
    k: int,
    i: int,
)
    requires
        0 <= i < k <= list.len(),
    ensures
        language_rows(list, allow_auto, k).contains(RowText::Track(i)) <==> allow_auto
            || !list[i].2,
    decreases k,
{
    let before = language_rows(list, allow_auto, k - 1);
    let all = language_rows(list, allow_auto, k);
    lemma_rows_below(list, allow_auto, k - 1);
    let auto = list[k - 1].2;
    if auto && !allow_auto {
        if i < k - 1 {
            tracks_on_offer_are_listed(list, allow_auto, k - 1, i);
        } else if all.contains(RowText::Track(i)) {
            let j = choose|j: int| 0 <= j < all.len() && all[j] == RowText::Track(i);
            assert(all[j] is Track);
        }
    } else {
        assert(all.last() == RowText::Track(k - 1));
        assert(all[all.len() - 1] == RowText::Track(k - 1));
        assert(forall|j: int| 0 <= j < before.len() ==> all[j] == before[j]);
        if i < k - 1 {
            tracks_on_offer_are_listed(list, allow_auto, k - 1, i);
            if before.contains(RowText::Track(i)) {
                let j = choose|j: int| 0 <= j < before.len() && before[j] == RowText::Track(i);
                assert(all[j] == RowText::Track(i));
            }
            if all.contains(RowText::Track(i)) {
                let j = choose|j: int| 0 <= j < all.len() && all[j] == RowText::Track(i);
                assert(j < before.len());
                assert(before[j] == RowText::Track(i));
            }
        }
    }
}

proof fn lemma_rows_below(list: Seq<(Seq<char>, Seq<char>, bool)>, allow_auto: bool, k: int)
    requires
        0 <= k <= list.len(),
    ensures
        forall|j: int|
            0 <= j < language_rows(list, allow_auto, k).len() ==> (#[trigger] language_rows(
                list,
                allow_auto,
                k,
            )[j] matches RowText::Track(i) ==> i < k),
    decreases k,
{
    if k > 0 {
        lemma_rows_below(list, allow_auto, k - 1);
        let before = language_rows(list, allow_auto, k - 1);
        let all = language_rows(list, allow_auto, k);
        assert forall|j: int| 0 <= j < all.len() implies (#[trigger] all[j] matches RowText::Track(i)
            ==> i < k) by {
            if j < before.len() {
                assert(all[j] == before[j]);
            }
        }
    }
}

} // verus!
