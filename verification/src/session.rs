//! The download screen: what was chosen, what is under way, and what follows from each report.
use crate::cut::Section;
use crate::events;
use crate::events::{Event, News};
use crate::history;
use crate::history::{Entry, History};
use crate::journal;
use crate::journal::Log;
use crate::lines;
use crate::lines::Progress;
use crate::model;
use crate::model::{
    CookieSource, DownloadId, DownloadOptions, Facts, Format, Language, MediaInfo, Quality, Request,
    SubLang, Wish,
};
use crate::paths;
use crate::paths::{FilePath, Split};
use crate::preview;
use crate::preview::{Preview, PreviewState, Question, Tick};
use crate::queue;
use crate::queue::{Fate, Line, Queue, QueueItem, QueueStatus, Row};
use crate::text;
use crate::tone::Tone;
use vstd::prelude::*;

verus! {

/// What the download screen shows.
#[derive(Debug)]
pub enum State {
    /// A link is waited for.
    Idle,
    /// Links wait in the queue, and nothing is being downloaded.
    Queued,
    Running,
    /// The file at this path is ready.
    Done(String),
    Failed(String),
    Cancelled,
}

/// What a [`State`] says.
pub enum Phase {
    Idle,
    Queued,
    Running,
    Done(Seq<char>),
    Failed(Seq<char>),
    Cancelled,
}

impl View for State {
    type V = Phase;

    open spec fn view(&self) -> Phase {
        match *self {
            State::Idle => Phase::Idle,
            State::Queued => Phase::Queued,
            State::Running => Phase::Running,
            State::Done(path) => Phase::Done(path@),
            State::Failed(why) => Phase::Failed(why@),
            State::Cancelled => Phase::Cancelled,
        }
    }
}

impl State {
    pub fn is_running(&self) -> (r: bool)
        ensures
            r == (self@ is Running),
    {
        match self {
            State::Running => true,
            _ => false,
        }
    }
}

/// A tool that can be updated.
#[derive(Debug, Clone, Copy, PartialEq, Eq, Structural)]
pub enum Component {
    Ytdlp,
    Ffmpeg,
}

/// What is being done about the tools.
#[derive(Debug)]
pub enum Setup {
    /// They are there.
    Ready,
    Installing,
    Updating(Component),
    /// Installing failed; the program opens all the same.
    Failed(String),
}

/// What a [`Setup`] says.
pub enum Stand {
    Ready,
    Installing,
    Updating(Component),
    Failed(Seq<char>),
}

impl Stand {
    /// Whether work on the tools is under way.
    pub open spec fn busy(self) -> bool {
        self is Installing || self is Updating
    }
}

impl View for Setup {
    type V = Stand;

    open spec fn view(&self) -> Stand {
        match *self {
            Setup::Ready => Stand::Ready,
            Setup::Installing => Stand::Installing,
            Setup::Updating(c) => Stand::Updating(c),
            Setup::Failed(why) => Stand::Failed(why@),
        }
    }
}

impl Setup {
    /// Whether work on the tools is under way.
    pub fn busy(&self) -> (r: bool)
        ensures
            r == self@.busy(),
    {
        match self {
            Setup::Installing | Setup::Updating(_) => true,
            _ => false,
        }
    }
}

/// The download screen.
#[derive(Debug)]
pub struct Session {
    /// The link in the field.
    pub url: String,
    pub format: Format,
    pub quality: Quality,
    pub options: DownloadOptions,
    pub sub_lang: SubLang,
    pub section: Section,
    /// Whether the bounds of the piece cannot be read.
    pub section_broken: bool,
    pub cookies: CookieSource,
    pub cookie_file: Option<FilePath>,
    pub out_dir: Option<String>,
    pub state: State,
    pub stage: String,
    pub progress: Progress,
    pub preview: Preview,
    pub log: Log,
    /// Why nothing can be downloaded at all.
    pub setup_error: Option<String>,
    pub setup: Setup,
    pub ffmpeg_missing: bool,
    pub warning: Option<String>,
    pub notice: Option<String>,
    /// Whether reports of a download or of work on the tools are waited for.
    pub attached: bool,
    pub meta_line: String,
    pub progress_line: String,
    pub done_path_display: String,
    pub quality_note: String,
    pub sub_lang_label: String,
    pub history: History,
    pub queue: Queue,
}

/// What a [`Session`] says.
#[verifier::ext_equal]
pub struct Desk {
    pub url: Seq<char>,
    pub format: Format,
    pub quality: Quality,
    pub options: DownloadOptions,
    pub sub_lang: Language,
    pub section: Section,
    pub section_broken: bool,
    pub cookies: CookieSource,
    pub cookie_file: Option<Split>,
    pub out_dir: Option<Seq<char>>,
    pub state: Phase,
    pub stage: Seq<char>,
    pub progress: Progress,
    pub preview: Question,
    pub log: Seq<Seq<char>>,
    pub setup_error: Option<Seq<char>>,
    pub setup: Stand,
    pub ffmpeg_missing: bool,
    pub warning: Option<Seq<char>>,
    pub notice: Option<Seq<char>>,
    pub attached: bool,
    pub meta_line: Seq<char>,
    pub progress_line: Seq<char>,
    pub done_path_display: Seq<char>,
    pub quality_note: Seq<char>,
    pub sub_lang_label: Seq<char>,
    pub history: Seq<Entry>,
    pub queue: Line,
}

impl View for Session {
    type V = Desk;

    open spec fn view(&self) -> Desk {
        Desk {
            url: self.url@,
            format: self.format,
            quality: self.quality,
            options: self.options,
            sub_lang: self.sub_lang@,
            section: self.section,
            section_broken: self.section_broken,
            cookies: self.cookies,
            cookie_file: paths::split_of(self.cookie_file),
            out_dir: text::said(self.out_dir),
            state: self.state@,
            stage: self.stage@,
            progress: self.progress,
            preview: self.preview@,
            log: self.log@,
            setup_error: text::said(self.setup_error),
            setup: self.setup@,
            ffmpeg_missing: self.ffmpeg_missing,
            warning: text::said(self.warning),
            notice: text::said(self.notice),
            attached: self.attached,
            meta_line: self.meta_line@,
            progress_line: self.progress_line@,
            done_path_display: self.done_path_display@,
            quality_note: self.quality_note@,
            sub_lang_label: self.sub_lang_label@,
            history: self.history@,
            queue: self.queue@,
        }
    }
}

/// The screen right after the start, with the settings of the last run.
pub open spec fn fresh(
    format: Format,
    quality: Quality,
    options: DownloadOptions,
    out_dir: Option<Seq<char>>,
) -> Desk {
    Desk {
        url: Seq::empty(),
        format,
        quality,
        options,
        sub_lang: Language::Original,
        section: Section { start: None, end: None },
        section_broken: false,
        cookies: CookieSource::Off,
        cookie_file: None,
        out_dir,
        state: Phase::Idle,
        stage: Seq::empty(),
        progress: lines::no_progress(),
        preview: preview::blank(CookieSource::Off, None),
        log: Seq::empty(),
        setup_error: None,
        setup: Stand::Ready,
        ffmpeg_missing: false,
        warning: None,
        notice: None,
        attached: false,
        meta_line: Seq::empty(),
        progress_line: Seq::empty(),
        done_path_display: Seq::empty(),
        quality_note: Seq::empty(),
        sub_lang_label: "Язык ролика"@,
        history: Seq::empty(),
        queue: Line { rows: Seq::empty(), next_id: 1 },
    }
}

impl Desk {
    /// Whether the link in the field could be downloaded as far as it is concerned.
    pub open spec fn url_ready(self) -> bool {
        &&& text::trimmed(self.url).len() > 0
        &&& self.out_dir is Some
        &&& self.setup_error is None
        &&& !self.section_broken
    }

    /// Whether the link in the field can be put in the queue.
    pub open spec fn can_queue(self) -> bool {
        self.url_ready() && !queue::is_full(self.queue.rows)
    }

    /// Whether downloading can be started: never while a download is being made; with an empty
    /// field where something waits in the queue.
    pub open spec fn can_go(self) -> bool {
        if self.state is Running || self.setup_error is Some {
            false
        } else if text::trimmed(self.url).len() == 0 {
            queue::first_waiting(self.queue.rows, 0) is Some
        } else {
            self.url_ready()
        }
    }

    /// What the link in the field is asked for as.
    pub open spec fn wish(self) -> Wish {
        Wish {
            url: text::trimmed(self.url),
            format: self.format,
            quality: self.quality,
            options: self.options,
            section: self.section,
            cookies: self.cookies,
            cookie_file: self.cookie_file,
            sub_lang: self.sub_lang,
        }
    }

    /// What is asked for by the download that is being made.
    pub open spec fn running_wish(self) -> Option<Wish> {
        match queue::first_running(self.queue.rows, 0) {
            Some(i) => Some(self.queue.rows[i].request),
            None => None,
        }
    }

    /// Whether the preview is of the download that is being made.
    pub open spec fn previews_running(self) -> bool {
        self.running_wish() matches Some(w) && preview::concerns(self.preview, w)
    }

    pub open spec fn with_status(self, id: DownloadId, status: Fate) -> Desk {
        Desk {
            queue: Line {
                rows: queue::with_status(self.queue.rows, id, status),
                next_id: self.queue.next_id,
            },
            ..self
        }
    }

    /// The number of the download that is being made.
    pub open spec fn running_id(self) -> Option<DownloadId> {
        match queue::first_running(self.queue.rows, 0) {
            Some(i) => Some(self.queue.rows[i].id),
            None => None,
        }
    }

    /// The row that is to be downloaded next, where a download may be started at all.
    pub open spec fn next_row(self) -> Option<Row> {
        if self.state is Running || self.setup.busy() {
            None
        } else {
            match queue::first_waiting(self.queue.rows, 0) {
                Some(i) => Some(self.queue.rows[i]),
                None => None,
            }
        }
    }

    /// The lines that the answer of the site is shown in, put together anew.
    pub open spec fn with_facts_lines(self) -> Desk {
        Desk {
            meta_line: lines::facts_text(self.preview.info),
            quality_note: lines::quality_words(self.format, self.quality, self.preview.info),
            sub_lang_label: lines::language_text(self.sub_lang, self.preview.info),
            ..self
        }
    }

    pub open spec fn with_progress_line(self) -> Desk {
        Desk { progress_line: lines::progress_text(self.stage, self.progress), ..self }
    }
}

/// The screen once the link in the field was put in the queue; unchanged where it cannot be.
pub open spec fn enqueued(d: Desk) -> Desk {
    if !d.can_queue() {
        d
    } else {
        let known = if preview::concerns(d.preview, d.wish()) {
            d.preview.info
        } else {
            None
        };
        Desk {
            queue: Line {
                rows: queue::with_room(d.queue.rows)->0.push(
                    queue::new_row(d.queue.next_id, d.wish(), d.out_dir->0, known),
                ),
                next_id: queue::number_after(d.queue.next_id),
            },
            state: (if d.state is Running {
                d.state
            } else {
                Phase::Queued
            }),
            ..d
        }
    }
}

/// The screen once a download was begun.
pub open spec fn begun(d: Desk, id: DownloadId) -> Desk {
    Desk {
        state: Phase::Running,
        attached: true,
        progress: lines::no_progress(),
        stage: "Запуск…"@,
        log: Seq::empty(),
        done_path_display: Seq::empty(),
        ..d.with_status(id, Fate::Running)
    }.with_progress_line()
}

/// The screen once a download could not be begun.
pub open spec fn not_begun(d: Desk, id: DownloadId, why: Seq<char>) -> Desk {
    Desk {
        setup_error: Some(why),
        state: Phase::Failed(why),
        ..d.with_status(id, Fate::Failed(why))
    }
}

/// The screen once the download that is being made was cancelled.
pub open spec fn cancelled(d: Desk) -> Desk {
    let stopped = match d.running_id() {
        Some(id) => d.with_status(id, Fate::Cancelled),
        None => d,
    };
    Desk {
        attached: false,
        state: Phase::Cancelled,
        stage: "Отменено"@,
        progress_line: Seq::empty(),
        ..stopped
    }
}

/// The screen once work on the tools has ended. A preview that failed is asked for again: it
/// may have failed for the want of a tool.
pub open spec fn setup_finished(d: Desk, outcome: Stand, now: u64) -> Desk {
    Desk {
        setup: outcome,
        attached: false,
        stage: Seq::empty(),
        progress: lines::no_progress(),
        progress_line: Seq::empty(),
        preview: (if d.preview.state == PreviewState::Failed {
            preview::retried(d.preview, now)
        } else {
            d.preview
        }),
        ..d
    }
}

/// What has to follow once all reports were taken.
#[derive(Debug, Clone, Copy, PartialEq, Eq, Structural)]
pub struct Marks {
    /// The line below the progress bar is to be put together anew.
    pub progress: bool,
    /// The lines that tell of the recording are to be put together anew.
    pub facts: bool,
    /// The next download is to be started.
    pub advance: bool,
    /// The tools are to be looked for anew.
    pub tools: bool,
}

pub open spec fn no_marks() -> Marks {
    Marks { progress: false, facts: false, advance: false, tools: false }
}

/// The screen, what has to follow, and which report brought the picture that is shown.
#[verifier::ext_equal]
pub struct Step {
    pub desk: Desk,
    pub marks: Marks,
    pub cover: Option<int>,
}

/// The screen once an answer of the site has come: the download that is being made gets its
/// title, and the preview gets the answer where it is of the same link and has none.
pub open spec fn informed(s: Step, facts: Facts) -> Step {
    let titled = match (facts.title, s.desk.running_id()) {
        (Some(title), Some(id)) => Desk {
            queue: Line {
                rows: queue::with_title(s.desk.queue.rows, id, title),
                next_id: s.desk.queue.next_id,
            },
            ..s.desk
        },
        _ => s.desk,
    };
    if titled.preview.info is None && titled.previews_running() {
        Step {
            desk: Desk { preview: preview::answered(titled.preview, facts), ..titled },
            marks: Marks { facts: true, ..s.marks },
            ..s
        }
    } else {
        Step { desk: titled, ..s }
    }
}

/// The screen once the `i`-th report has come at a moment. A report about a download that is
/// not being made changes nothing.
#[verifier::opaque]
pub open spec fn told(s: Step, n: News, i: int, now: u64) -> Step {
    let d = s.desk;
    match n {
        News::Info(facts) => informed(s, facts),
        News::Thumbnail { valid } => if valid && !d.preview.covered && d.previews_running() {
            Step {
                desk: Desk { preview: Question { covered: true, ..d.preview }, ..d },
                cover: Some(i),
                ..s
            }
        } else {
            s
        },
        News::Stage(stage) => Step {
            desk: Desk { stage, ..d },
            marks: Marks { progress: true, ..s.marks },
            ..s
        },
        News::Progress(p) => if d.setup.busy() || queue::runs(d.queue.rows, p.download_id) {
            Step {
                desk: Desk { progress: p, ..d },
                marks: Marks { progress: true, ..s.marks },
                ..s
            }
        } else {
            s
        },
        News::Log(line) => Step { desk: Desk { log: journal::logged(d.log, line), ..d }, ..s },
        News::Done { id, file } => if queue::runs(d.queue.rows, id) {
            Step {
                desk: Desk {
                    stage: "Готово"@,
                    done_path_display: file.path,
                    history: history::remembered(d.history, history::entry_of(file)),
                    state: Phase::Done(file.path),
                    ..d.with_status(id, Fate::Done)
                },
                marks: Marks { progress: true, advance: true, ..s.marks },
                ..s
            }
        } else {
            s
        },
        News::Failed { id, message } => if d.setup.busy() {
            Step {
                desk: setup_finished(d, Stand::Failed(message), now),
                marks: Marks { tools: true, ..s.marks },
                ..s
            }
        } else if queue::runs(d.queue.rows, id) {
            Step {
                desk: Desk {
                    stage: "Ошибка"@,
                    state: Phase::Failed(message),
                    ..d.with_status(id, Fate::Failed(message))
                },
                marks: Marks { progress: true, advance: true, ..s.marks },
                ..s
            }
        } else {
            s
        },
        News::Ready => Step {
            desk: setup_finished(d, Stand::Ready, now),
            marks: Marks { tools: true, ..s.marks },
            ..s
        },
        News::Warning(t) => Step { desk: Desk { warning: Some(t), ..d }, ..s },
        News::Notice(t) => Step { desk: Desk { notice: Some(t), ..d }, ..s },
        _ => s,
    }
}

/// The screen once all reports have come, in their order.
pub open spec fn told_all(d: Desk, list: Seq<News>, now: u64) -> Step
    decreases list.len(),
{
    if list.len() == 0 {
        Step { desk: d, marks: no_marks(), cover: None }
    } else {
        told(told_all(d, list.drop_last(), now), list.last(), list.len() - 1, now)
    }
}

/// The screen once the lines were put together anew that need it.
pub open spec fn renewed(d: Desk, marks: Marks) -> Desk {
    let first = if marks.progress {
        d.with_progress_line()
    } else {
        d
    };
    if marks.facts {
        first.with_facts_lines()
    } else {
        first
    }
}

/// The screen once no more reports will come: the download that was being made is taken for
/// done.
pub open spec fn closed(d: Desk) -> Desk {
    let over = match d.running_id() {
        Some(id) => d.with_status(id, Fate::Done),
        None => d,
    };
    Desk {
        attached: false,
        state: (if d.state is Running {
            Phase::Idle
        } else {
            d.state
        }),
        ..over
    }
}

/// The screen once all reports were taken and all that they ask for was done.
pub open spec fn settled(s: Step, disconnected: bool) -> Desk {
    let d = renewed(s.desk, s.marks);
    if disconnected {
        closed(d)
    } else {
        d
    }
}

/// Whether the next download is to be started once all reports were taken: one has ended.
pub open spec fn goes_on(s: Step, disconnected: bool) -> bool {
    s.marks.advance || (disconnected && renewed(s.desk, s.marks).running_id() is Some)
}

/// A download that is to be started.
#[derive(Debug)]
pub struct Launch {
    pub id: DownloadId,
    pub request: Request,
    pub out_dir: String,
    pub known: Option<MediaInfo>,
}

/// Whether a download is the one of a row.
pub open spec fn is_launch(l: Option<Launch>, row: Option<Row>) -> bool {
    match (l, row) {
        (Some(l), Some(r)) => {
            &&& l.id == r.id
            &&& l.request@ == r.request
            &&& l.out_dir@ == r.out_dir
            &&& model::facts(l.known) == r.known
        },
        (None, None) => true,
        _ => false,
    }
}

/// What is to be done outside once reports were taken.
#[derive(Debug)]
pub struct Effects {
    /// The tools are to be looked for anew, and their versions asked for.
    pub tools: bool,
    /// Which report brought the picture that is to be shown.
    pub cover: Option<usize>,
    /// The download that is to be started.
    pub launch: Option<Launch>,
}

impl Session {
    /// The screen right after the start, with the settings of the last run.
    pub fn new(
        format: Format,
        quality: Quality,
        options: DownloadOptions,
        out_dir: Option<String>,
    ) -> (r: Session)
        ensures
            r@ == fresh(format, quality, options, text::said(out_dir)),
            r.queue.lines_fit(),
    {
        Session {
            url: String::new(),
            format,
            quality,
            options,
            sub_lang: SubLang::Original,
            section: Section { start: None, end: None },
            section_broken: false,
            cookies: CookieSource::Off,
            cookie_file: None,
            out_dir,
            state: State::Idle,
            stage: String::new(),
            progress: Progress::default(),
            preview: Preview::default(),
            log: Log::new(),
            setup_error: None,
            setup: Setup::Ready,
            ffmpeg_missing: false,
            warning: None,
            notice: None,
            attached: false,
            meta_line: String::new(),
            progress_line: String::new(),
            done_path_display: String::new(),
            quality_note: String::new(),
            sub_lang_label: "Язык ролика".to_owned(),
            history: History::default(),
            queue: Queue::new(),
        }
    }

    /// Whether the link in the field could be downloaded as far as it is concerned.
    pub fn url_is_ready(&self) -> (r: bool)
        ensures
            r == self@.url_ready(),
    {
        let bare = text::trim(self.url.as_str());
        !bare.as_str().is_empty() && self.out_dir.is_some() && self.setup_error.is_none()
            && !self.section_broken
    }

    /// Whether the link in the field can be put in the queue.
    pub fn can_enqueue(&self) -> (r: bool)
        requires
            self.queue.summary_fits(),
        ensures
            r == self@.can_queue(),
    {
        self.url_is_ready() && !self.queue.full
    }

    /// Whether downloading can be started.
    pub fn can_start(&self) -> (r: bool)
        ensures
            r == self@.can_go(),
    {
        if self.state.is_running() || self.setup_error.is_some() {
            return false;
        }
        let bare = text::trim(self.url.as_str());
        if bare.as_str().is_empty() {
            self.queue.has_waiting()
        } else {
            self.url_is_ready()
        }
    }

    /// Puts the link in the field at the end of the queue; tells whether that was done.
    pub fn enqueue(&mut self) -> (r: bool)
        requires
            old(self).queue.summary_fits(),
        ensures
            r == old(self)@.can_queue(),
            final(self)@ == enqueued(old(self)@),
            final(self).queue.summary_fits(),
            old(self).queue.lines_fit() ==> final(self).queue.lines_fit(),
    {
        proof {
            queue::full_queue_refuses(self@.queue.rows);
        }
        if !self.can_enqueue() {
            return false;
        }
        let out_dir: String = match &self.out_dir {
            Some(dir) => dir.clone(),
            None => return false,
        };
        let request = Request {
            url: text::trim(self.url.as_str()),
            format: self.format,
            quality: self.quality,
            options: self.options,
            section: self.section,
            cookies: self.cookies,
            cookie_file: paths::copy_option(&self.cookie_file),
            sub_lang: self.sub_lang.clone(),
        };
        let known = self.preview.answer_for(&request);
        if self.queue.push(request, out_dir, known).is_none() {
            return false;
        }
        if !self.state.is_running() {
            self.state = State::Queued;
        }
        true
    }

    /// The download that is to be started next: none while one is being made or the tools are
    /// being worked on.
    pub fn start_next(&self) -> (r: Option<Launch>)
        ensures
            is_launch(r, self@.next_row()),
    {
        if self.state.is_running() || self.setup.busy() {
            return None;
        }
        match self.queue.next_waiting() {
            Some((id, request, out_dir, known)) => Some(Launch { id, request, out_dir, known }),
            None => None,
        }
    }

    /// The link in the field goes to the end of the queue, and the queue goes on.
    pub fn start(&mut self) -> (r: Option<Launch>)
        requires
            old(self).queue.summary_fits(),
        ensures
            final(self)@ == enqueued(old(self)@),
            is_launch(r, enqueued(old(self)@).next_row()),
            final(self).queue.summary_fits(),
            old(self).queue.lines_fit() ==> final(self).queue.lines_fit(),
    {
        let _ = self.enqueue();
        self.start_next()
    }

    /// The download with this number was begun.
    pub fn begin(&mut self, id: DownloadId)
        ensures
            final(self)@ == begun(old(self)@, id),
            final(self).queue.summary_fits(),
            old(self).queue.lines_fit() ==> final(self).queue.lines_fit(),
    {
        self.queue.set_status(id, QueueStatus::Running);
        self.attached = true;
        self.state = State::Running;
        self.progress = Progress::default();
        self.stage = "Запуск…".to_owned();
        self.log.clear();
        self.done_path_display = String::new();
        self.rebuild_progress_line();
    }

    /// The download with this number could not be begun.
    pub fn fail_to_begin(&mut self, id: DownloadId, why: String)
        ensures
            final(self)@ == not_begun(old(self)@, id, why@),
            final(self).queue.summary_fits(),
            old(self).queue.lines_fit() ==> final(self).queue.lines_fit(),
    {
        self.queue.set_status(id, QueueStatus::Failed(why.clone()));
        self.setup_error = Some(why.clone());
        self.state = State::Failed(why);
    }

    /// Cancels the download that is being made.
    pub fn cancel(&mut self)
        ensures
            final(self)@ == cancelled(old(self)@),
            old(self).queue.summary_fits() ==> final(self).queue.summary_fits(),
            old(self).queue.lines_fit() ==> final(self).queue.lines_fit(),
    {
        self.attached = false;
        if let Some(id) = self.queue.running_id() {
            self.queue.set_status(id, QueueStatus::Cancelled);
        }
        self.state = State::Cancelled;
        self.stage = "Отменено".to_owned();
        self.progress_line = String::new();
    }

    pub fn rebuild_progress_line(&mut self)
        ensures
            final(self)@ == old(self)@.with_progress_line(),
            final(self).queue == old(self).queue,
    {
        self.progress_line = lines::progress_line(self.stage.as_str(), self.progress);
    }

    /// Puts the lines together anew that tell of the recording.
    pub fn rebuild_facts_lines(&mut self)
        ensures
            final(self)@ == old(self)@.with_facts_lines(),
            final(self).queue == old(self).queue,
    {
        self.meta_line = lines::meta_line(&self.preview.info);
        self.quality_note = lines::quality_note(self.format, self.quality, &self.preview.info);
        self.sub_lang_label = lines::sub_lang_label(&self.sub_lang, &self.preview.info);
    }

    /// Work on the tools has ended.
    pub fn finish_setup(&mut self, outcome: Setup, now: u64)
        ensures
            final(self)@ == setup_finished(old(self)@, outcome@, now),
            final(self).queue == old(self).queue,
    {
        self.setup = outcome;
        self.attached = false;
        self.stage = String::new();
        self.progress = Progress::default();
        self.progress_line = String::new();
        if self.preview.state == PreviewState::Failed {
            self.preview.retry(now);
        }
    }

    /// Work on the tools was cancelled.
    pub fn cancel_setup(&mut self, now: u64)
        ensures
            final(self)@ == setup_finished(old(self)@, Stand::Ready, now),
            final(self).queue == old(self).queue,
    {
        self.finish_setup(Setup::Ready, now);
    }

    /// The tools were looked for: why nothing can be downloaded, and whether ffmpeg is missing.
    pub fn found_tools(&mut self, setup_error: Option<String>, ffmpeg_missing: bool)
        ensures
            final(self)@ == (Desk {
                setup_error: text::said(setup_error),
                ffmpeg_missing,
                ..old(self)@
            }),
            final(self).queue == old(self).queue,
    {
        self.setup_error = setup_error;
        self.ffmpeg_missing = ffmpeg_missing;
    }

    /// A tool is being installed for the first time.
    pub fn start_install(&mut self)
        ensures
            final(self)@ == (Desk {
                setup: Stand::Installing,
                attached: true,
                stage: "Проверяю, чего не хватает…"@,
                ..old(self)@
            }).with_progress_line(),
            final(self).queue == old(self).queue,
    {
        self.setup = Setup::Installing;
        self.attached = true;
        self.stage = "Проверяю, чего не хватает…".to_owned();
        self.rebuild_progress_line();
    }

    /// A tool is being updated. What was said of an earlier attempt goes.
    pub fn start_update(&mut self, what: Component)
        ensures
            final(self)@ == updating(old(self)@, what),
            final(self).queue == old(self).queue,
    {
        self.notice = None;
        self.warning = None;
        self.attached = true;
        self.setup = Setup::Updating(what);
        self.progress = Progress::default();
        self.stage = match what {
            Component::Ytdlp => "Проверяю версию…".to_owned(),
            Component::Ffmpeg => "Готовлюсь скачивать…".to_owned(),
        };
        self.rebuild_progress_line();
    }

    /// What is shown as the state, in a word.
    pub fn status(&self) -> (r: (&'static str, Tone))
        ensures
            (r.0@, r.1) == status_word(self@.state),
    {
        match self.state {
            State::Idle => ("Готов к работе", Tone::Secondary),
            State::Queued => ("В очереди", Tone::Secondary),
            State::Running => ("Загрузка", Tone::Accent),
            State::Done(_) => ("Готово", Tone::Success),
            State::Failed(_) => ("Ошибка", Tone::Error),
            State::Cancelled => ("Отменено", Tone::Secondary),
        }
    }
}

/// The screen once a tool is being updated.
pub open spec fn updating(d: Desk, what: Component) -> Desk {
    Desk {
        notice: None,
        warning: None,
        attached: true,
        setup: Stand::Updating(what),
        progress: lines::no_progress(),
        stage: (match what {
            Component::Ytdlp => "Проверяю версию…"@,
            Component::Ffmpeg => "Готовлюсь скачивать…"@,
        }),
        ..d
    }.with_progress_line()
}

pub open spec fn status_word(state: Phase) -> (Seq<char>, Tone) {
    match state {
        Phase::Idle => ("Готов к работе"@, Tone::Secondary),
        Phase::Queued => ("В очереди"@, Tone::Secondary),
        Phase::Running => ("Загрузка"@, Tone::Accent),
        Phase::Done(_) => ("Готово"@, Tone::Success),
        Phase::Failed(_) => ("Ошибка"@, Tone::Error),
        Phase::Cancelled => ("Отменено"@, Tone::Secondary),
    }
}

/// What has been gathered while reports are taken.
#[derive(Debug)]
pub struct Wake {
    pub marks: Marks,
    pub cover: Option<usize>,
}

/// The position of a report that brought a picture.
pub open spec fn cover_at(cover: Option<usize>) -> Option<int> {
    match cover {
        Some(i) => Some(i as int),
        None => None,
    }
}

/// Where things stand while reports are taken.
pub open spec fn stands(s: Session, w: Wake) -> Step {
    Step { desk: s@, marks: w.marks, cover: cover_at(w.cover) }
}

impl Session {
    fn tell_info(&mut self, info: MediaInfo, i: usize, now: u64, w: &mut Wake)
        ensures
            stands(*final(self), *final(w)) == told(
                stands(*old(self), *old(w)),
                News::Info(info@),
                i as int,
                now,
            ),
            old(self).queue.lines_fit() ==> final(self).queue.lines_fit(),
    {
        proof {
            reveal(told);
        }
        if let Some(title) = &info.title {
            if let Some(id) = self.queue.running_id() {
                self.queue.set_title(id, title.as_str());
            }
        }
        let about: bool = self.preview.is_about(self.queue.running_request());
        if self.preview.info.is_none() && about {
            self.preview.answer(info);
            w.marks.facts = true;
        }
    }

    fn tell_picture(&mut self, valid: bool, i: usize, now: u64, w: &mut Wake)
        ensures
            stands(*final(self), *final(w)) == told(
                stands(*old(self), *old(w)),
                News::Thumbnail { valid },
                i as int,
                now,
            ),
            final(self).queue == old(self).queue,
    {
        proof {
            reveal(told);
        }
        let about: bool = self.preview.is_about(self.queue.running_request());
        if valid && !self.preview.covered && about {
            self.preview.covered = true;
            w.cover = Some(i);
        }
    }

    fn tell_stage(&mut self, stage: String, i: usize, now: u64, w: &mut Wake)
        ensures
            stands(*final(self), *final(w)) == told(
                stands(*old(self), *old(w)),
                News::Stage(stage@),
                i as int,
                now,
            ),
            final(self).queue == old(self).queue,
    {
        proof {
            reveal(told);
        }
        self.stage = stage;
        w.marks.progress = true;
    }

    fn tell_progress(&mut self, p: Progress, i: usize, now: u64, w: &mut Wake)
        ensures
            stands(*final(self), *final(w)) == told(
                stands(*old(self), *old(w)),
                News::Progress(p),
                i as int,
                now,
            ),
            final(self).queue == old(self).queue,
    {
        proof {
            reveal(told);
        }
        if self.setup.busy() || self.queue.is_running(p.download_id) {
            self.progress = p;
            w.marks.progress = true;
        }
    }

    fn tell_done(&mut self, id: DownloadId, file: FilePath, i: usize, now: u64, w: &mut Wake)
        ensures
            stands(*final(self), *final(w)) == told(
                stands(*old(self), *old(w)),
                News::Done { id, file: file@ },
                i as int,
                now,
            ),
            old(self).queue.lines_fit() ==> final(self).queue.lines_fit(),
    {
        proof {
            reveal(told);
        }
        if self.queue.is_running(id) {
            self.stage = "Готово".to_owned();
            self.done_path_display = file.path.clone();
            self.history.remember_split(&file);
            self.queue.set_status(id, QueueStatus::Done);
            self.state = State::Done(file.path.clone());
            w.marks.advance = true;
            w.marks.progress = true;
        }
    }

    fn tell_failed(&mut self, id: DownloadId, message: String, i: usize, now: u64, w: &mut Wake)
        ensures
            stands(*final(self), *final(w)) == told(
                stands(*old(self), *old(w)),
                News::Failed { id, message: message@ },
                i as int,
                now,
            ),
            old(self).queue.lines_fit() ==> final(self).queue.lines_fit(),
    {
        proof {
            reveal(told);
        }
        if self.setup.busy() {
            self.finish_setup(Setup::Failed(message), now);
            w.marks.tools = true;
        } else if self.queue.is_running(id) {
            self.stage = "Ошибка".to_owned();
            self.queue.set_status(id, QueueStatus::Failed(message.clone()));
            self.state = State::Failed(message);
            w.marks.advance = true;
            w.marks.progress = true;
        }
    }

    fn tell_ready(&mut self, i: usize, now: u64, w: &mut Wake)
        ensures
            stands(*final(self), *final(w)) == told(
                stands(*old(self), *old(w)),
                News::Ready,
                i as int,
                now,
            ),
            final(self).queue == old(self).queue,
    {
        proof {
            reveal(told);
        }
        self.finish_setup(Setup::Ready, now);
        w.marks.tools = true;
    }

    /// Takes a report that only leaves a text.
    fn tell_text(&mut self, event: Event, i: usize, now: u64, w: &Wake)
        requires
            event is Log || event is Warning || event is Notice,
        ensures
            stands(*final(self), *w) == told(stands(*old(self), *w), event@, i as int, now),
            final(self).queue == old(self).queue,
    {
        proof {
            reveal(told);
        }
        match event {
            Event::Log(line) => self.log.push_log(line),
            Event::Warning(t) => {
                self.warning = Some(t);
            },
            Event::Notice(t) => {
                self.notice = Some(t);
            },
            _ => {},
        }
    }

    /// Takes one report.
    fn tell(&mut self, event: Event, i: usize, now: u64, w: &mut Wake)
        ensures
            stands(*final(self), *final(w)) == told(
                stands(*old(self), *old(w)),
                event@,
                i as int,
                now,
            ),
            old(self).queue.lines_fit() ==> final(self).queue.lines_fit(),
    {
        match event {
            Event::Info(info) => self.tell_info(info, i, now, w),
            Event::Thumbnail { valid } => self.tell_picture(valid, i, now, w),
            Event::Stage(stage) => self.tell_stage(stage, i, now, w),
            Event::Progress(p) => self.tell_progress(p, i, now, w),
            Event::Done { id, file } => self.tell_done(id, file, i, now, w),
            Event::Failed { id, message } => self.tell_failed(id, message, i, now, w),
            Event::Ready => self.tell_ready(i, now, w),
            Event::Log(line) => self.tell_text(Event::Log(line), i, now, w),
            Event::Warning(t) => self.tell_text(Event::Warning(t), i, now, w),
            Event::Notice(t) => self.tell_text(Event::Notice(t), i, now, w),
            _ => {
                proof {
                    reveal(told);
                }
            },
        }
    }

    /// Takes all reports, in their order.
    fn tell_all(&mut self, reports: Vec<Event>, now: u64) -> (w: Wake)
        ensures
            stands(*final(self), w) == told_all(old(self)@, events::news(reports@), now),
            old(self).queue.lines_fit() ==> final(self).queue.lines_fit(),
    {
        let mut w = Wake {
            marks: Marks { progress: false, facts: false, advance: false, tools: false },
            cover: None,
        };
        let count = reports.len();
        let ghost list = reports@;
        let ghost all = events::news(list);
        let mut i: usize = 0;
        assert(all.take(0) =~= Seq::empty());
        for event in it: reports.into_iter()
            invariant
                it.seq() == list,
                all == events::news(list),
                i == it.index(),
                list.len() == count,
                stands(*self, w) == told_all(old(self)@, all.take(it.index()), now),
                old(self).queue.lines_fit() ==> self.queue.lines_fit(),
        {
            proof {
                let k = it.index();
                assert(all[k] == event@);
                assert(all.take(k + 1).drop_last() =~= all.take(k));
                assert(all.take(k + 1).last() == all[k]);
            }
            self.tell(event, i, now, &mut w);
            i += 1;
        }
        assert(all.take(list.len() as int) =~= all);
        w
    }

    /// Puts the lines together anew that need it.
    fn renew_lines(&mut self, marks: Marks)
        ensures
            final(self)@ == renewed(old(self)@, marks),
            final(self).queue == old(self).queue,
    {
        if marks.progress {
            self.rebuild_progress_line();
        }
        if marks.facts {
            self.rebuild_facts_lines();
        }
    }

    /// No more reports will come; tells whether a download was being made until now.
    fn close(&mut self) -> (r: bool)
        ensures
            final(self)@ == closed(old(self)@),
            r == (old(self)@.running_id() is Some),
            old(self).queue.lines_fit() ==> final(self).queue.lines_fit(),
    {
        self.attached = false;
        let mut made: bool = false;
        if let Some(id) = self.queue.running_id() {
            self.queue.set_status(id, QueueStatus::Done);
            made = true;
        }
        if self.state.is_running() {
            self.state = State::Idle;
        }
        made
    }

    /// Takes the reports that have come at a moment; `disconnected` tells that no more will.
    pub fn drain_events(&mut self, reports: Vec<Event>, disconnected: bool, now: u64) -> (r: Effects)
        ensures
            ({
                let step = told_all(old(self)@, events::news(reports@), now);
                let desk = settled(step, disconnected);
                &&& final(self)@ == desk
                &&& r.tools == step.marks.tools
                &&& cover_at(r.cover) == step.cover
                &&& is_launch(
                    r.launch,
                    (if goes_on(step, disconnected) {
                        desk.next_row()
                    } else {
                        None
                    }),
                )
            }),
            old(self).queue.lines_fit() ==> final(self).queue.lines_fit(),
    {
        let w = self.tell_all(reports, now);
        self.renew_lines(w.marks);
        let mut advance: bool = w.marks.advance;
        if disconnected {
            if self.close() {
                advance = true;
            }
        }
        let launch: Option<Launch> = if advance {
            self.start_next()
        } else {
            None
        };
        Effects { tools: w.marks.tools, cover: w.cover, launch }
    }
}

/// The screen once the link in the field was changed. What was told of the former link goes.
pub open spec fn retargeted(d: Desk, now: u64) -> Desk {
    let url = text::trimmed(d.url);
    if preview::is_of(d.preview, url, d.cookies, d.cookie_file) {
        d
    } else {
        Desk {
            preview: preview::aimed(url, d.cookies, d.cookie_file, now),
            meta_line: Seq::empty(),
            quality_note: Seq::empty(),
            sub_lang_label: lines::language_text(d.sub_lang, None),
            ..d
        }
    }
}

/// The screen once the `i`-th report on the question has come, and which report brought the
/// picture that is shown.
pub open spec fn asked_told(d: Desk, n: News, i: int, cover: Option<int>) -> (Desk, Option<int>) {
    match n {
        News::Info(facts) => (
            Desk { preview: preview::answered(d.preview, facts), ..d },
            cover,
        ),
        News::Thumbnail { valid } => if valid {
            (Desk { preview: Question { covered: true, ..d.preview }, ..d }, Some(i))
        } else {
            (d, cover)
        },
        News::Log(line) => (Desk { log: journal::logged(d.log, line), ..d }, cover),
        _ => (d, cover),
    }
}

/// The screen once all reports on the question have come, in their order.
pub open spec fn asked_all(d: Desk, list: Seq<News>) -> (Desk, Option<int>)
    decreases list.len(),
{
    if list.len() == 0 {
        (d, None)
    } else {
        let (before, cover) = asked_all(d, list.drop_last());
        asked_told(before, list.last(), list.len() - 1, cover)
    }
}

/// The screen once reports on the question have come. Without a question under way there is
/// no one whose report could be taken.
pub open spec fn preview_ticked(d: Desk, list: Seq<News>, disconnected: bool) -> (
    Desk,
    Option<int>,
) {
    if !d.preview.asking {
        (d, None)
    } else {
        let start = if disconnected {
            Desk { preview: preview::ended(d.preview, preview::any_answer(list)), ..d }
        } else {
            d
        };
        let (after, cover) = asked_all(start, list);
        if preview::any_answer(list) {
            (after.with_facts_lines(), cover)
        } else {
            (after, cover)
        }
    }
}

/// What is to be done outside about the preview.
#[derive(Debug)]
pub struct PreviewEffects {
    /// Which report brought the picture that is to be shown.
    pub cover: Option<usize>,
    /// What is to be done about the question.
    pub tick: Tick,
}

impl Session {
    /// The link in the field was changed.
    pub fn retarget_preview(&mut self, now: u64)
        ensures
            final(self)@ == retargeted(old(self)@, now),
            final(self).queue == old(self).queue,
    {
        let url = text::trim(self.url.as_str());
        if !self.preview.retarget(url.as_str(), self.cookies, &self.cookie_file, now) {
            return;
        }
        self.meta_line = String::new();
        self.quality_note = String::new();
        self.sub_lang_label = lines::sub_lang_label(&self.sub_lang, &self.preview.info);
    }

    /// What the site is asked.
    pub fn preview_request(&self) -> (r: Request)
        ensures
            r@ == (Wish {
                url: self@.preview.url,
                cookies: self@.preview.cookies,
                cookie_file: self@.preview.cookie_file,
                ..self@.wish()
            }),
    {
        Request {
            url: self.preview.url.clone(),
            format: self.format,
            quality: self.quality,
            options: self.options,
            section: self.section,
            cookies: self.preview.cookies,
            cookie_file: paths::copy_option(&self.preview.cookie_file),
            sub_lang: self.sub_lang.clone(),
        }
    }

    fn tell_asked(&mut self, event: Event, i: usize, cover: Option<usize>) -> (r: Option<usize>)
        ensures
            (final(self)@, cover_at(r)) == asked_told(
                old(self)@,
                event@,
                i as int,
                cover_at(cover),
            ),
            final(self).queue == old(self).queue,
    {
        match event {
            Event::Info(info) => {
                self.preview.answer(info);
                cover
            },
            Event::Thumbnail { valid } => if valid {
                self.preview.covered = true;
                Some(i)
            } else {
                cover
            },
            Event::Log(line) => {
                self.log.push_log(line);
                cover
            },
            _ => cover,
        }
    }

    fn tell_asked_all(&mut self, reports: Vec<Event>) -> (r: Option<usize>)
        ensures
            (final(self)@, cover_at(r)) == asked_all(old(self)@, events::news(reports@)),
            final(self).queue == old(self).queue,
    {
        let mut cover: Option<usize> = None;
        let count = reports.len();
        let ghost list = reports@;
        let ghost all = events::news(list);
        let mut i: usize = 0;
        assert(all.take(0) =~= Seq::empty());
        for event in it: reports.into_iter()
            invariant
                it.seq() == list,
                all == events::news(list),
                i == it.index(),
                list.len() == count,
                (self@, cover_at(cover)) == asked_all(old(self)@, all.take(it.index())),
                self.queue == old(self).queue,
        {
            proof {
                let k = it.index();
                assert(all[k] == event@);
                assert(all.take(k + 1).drop_last() =~= all.take(k));
                assert(all.take(k + 1).last() == all[k]);
            }
            cover = self.tell_asked(event, i, cover);
            i += 1;
        }
        assert(all.take(list.len() as int) =~= all);
        cover
    }

    /// Takes the reports on the question, and decides what is to be done about it now.
    pub fn tick_preview(&mut self, reports: Vec<Event>, disconnected: bool, now: u64) -> (r:
        PreviewEffects)
        ensures
            (final(self)@, cover_at(r.cover)) == preview_ticked(
                old(self)@,
                events::news(reports@),
                disconnected,
            ),
            r.tick == preview::tick_of(final(self)@.preview, now),
            final(self).queue == old(self).queue,
    {
        let taken = self.preview.take_events(reports, disconnected);
        let answered = preview::has_answer(&taken);
        let cover = self.tell_asked_all(taken);
        if answered {
            self.rebuild_facts_lines();
        }
        PreviewEffects { cover, tick: self.preview.tick(now) }
    }
}

/// Whether what is shown agrees with the queue: the screen says that a download is being made
/// exactly where one is, it is the only one, and every number was handed out once.
pub open spec fn steady(d: Desk) -> bool {
    &&& queue::numbered(d.queue)
    &&& queue::one_at_a_time(d.queue.rows)
    &&& d.state is Running <==> queue::first_running(d.queue.rows, 0) is Some
}

/// Ending the download that is being made leaves none.
proof fn lemma_ending_leaves_none(line: Line, id: DownloadId, status: Fate)
    requires
        queue::numbered(line),
        queue::one_at_a_time(line.rows),
        queue::runs(line.rows, id),
        status !is Running,
    ensures
        ({
            let rows = queue::with_status(line.rows, id, status);
            &&& queue::numbered(Line { rows, next_id: line.next_id })
            &&& queue::one_at_a_time(rows)
            &&& queue::first_running(rows, 0) is None
        }),
{
    let rows = line.rows;
    let after = queue::with_status(rows, id, status);
    queue::lemma_first_with(rows, id, 0);
    queue::lemma_first_running(after, 0);
    let i = choose|i: int|
        0 <= i < rows.len() && (#[trigger] rows[i]).id == id && rows[i].status is Running;
    let k = queue::first_with(rows, id, 0)->0;
    assert(k == i);
    assert forall|j: int| 0 <= j < after.len() implies (#[trigger] after[j]).id == rows[j].id
        && (after[j].status is Running ==> j != k && rows[j].status is Running) by {}
    assert forall|j: int| 0 <= j < after.len() implies !((#[trigger] after[j]).status is Running) by {
        if after[j].status is Running {
            assert(rows[j].status is Running);
            assert(rows[k].status is Running);
        }
    }
}

/// The number of the download that is being made is that of a download that is being made.
proof fn lemma_running_id_runs(d: Desk)
    requires
        d.running_id() is Some,
    ensures
        queue::runs(d.queue.rows, d.running_id()->0),
{
    queue::lemma_first_running(d.queue.rows, 0);
}

/// A title changes neither the numbers nor the states of the rows.
proof fn lemma_title_changes_no_state(line: Line, id: DownloadId, title: Seq<char>)
    ensures
        ({
            let rows = queue::with_title(line.rows, id, title);
            let after = Line { rows, next_id: line.next_id };
            &&& queue::numbered(line) ==> queue::numbered(after)
            &&& queue::one_at_a_time(line.rows) ==> queue::one_at_a_time(rows)
            &&& queue::first_running(rows, 0) is Some <==> queue::first_running(
                line.rows,
                0,
            ) is Some
        }),
{
    let rows = line.rows;
    let after = queue::with_title(rows, id, title);
    queue::lemma_first_with(rows, id, 0);
    queue::lemma_first_running(rows, 0);
    queue::lemma_first_running(after, 0);
    assert(after.len() == rows.len());
    assert forall|j: int| 0 <= j < rows.len() implies (#[trigger] after[j]).id == rows[j].id
        && after[j].status == rows[j].status by {}
    if let Some(k) = queue::first_running(rows, 0) {
        assert(after[k].status is Running);
    }
    if let Some(k) = queue::first_running(after, 0) {
        assert(rows[k].status is Running);
    }
}

/// Whatever is reported, the screen keeps agreeing with the queue.
pub proof fn reports_keep_the_screen_steady(s: Step, n: News, i: int, now: u64)
    requires
        steady(s.desk),
    ensures
        steady(told(s, n, i, now).desk),
{
    reveal(told);
    let d = s.desk;
    match n {
        News::Info(facts) => {
            if let (Some(title), Some(id)) = (facts.title, d.running_id()) {
                lemma_title_changes_no_state(d.queue, id, title);
            }
        },
        News::Done { id, file } => {
            if queue::runs(d.queue.rows, id) {
                lemma_ending_leaves_none(d.queue, id, Fate::Done);
            }
        },
        News::Failed { id, message } => {
            if !d.setup.busy() && queue::runs(d.queue.rows, id) {
                lemma_ending_leaves_none(d.queue, id, Fate::Failed(message));
            }
        },
        _ => {},
    }
}

/// Once reports were taken, the screen still agrees with the queue, whether more will come or
/// not.
pub proof fn draining_keeps_the_screen_steady(
    d: Desk,
    list: Seq<News>,
    now: u64,
    disconnected: bool,
)
    requires
        steady(d),
    ensures
        steady(settled(told_all(d, list, now), disconnected)),
{
    lemma_told_all_steady(d, list, now);
    let step = told_all(d, list, now);
    let after = renewed(step.desk, step.marks);
    if disconnected && after.running_id() is Some {
        lemma_running_id_runs(after);
        lemma_ending_leaves_none(after.queue, after.running_id()->0, Fate::Done);
    }
}

proof fn lemma_told_all_steady(d: Desk, list: Seq<News>, now: u64)
    requires
        steady(d),
    ensures
        steady(told_all(d, list, now).desk),
    decreases list.len(),
{
    if list.len() > 0 {
        lemma_told_all_steady(d, list.drop_last(), now);
        reports_keep_the_screen_steady(
            told_all(d, list.drop_last(), now),
            list.last(),
            list.len() - 1,
            now,
        );
    }
}

/// A download that is started is the only one: it is started where none is being made.
pub proof fn starting_keeps_the_screen_steady(d: Desk)
    requires
        steady(d),
        d.next_row() is Some,
    ensures
        steady(begun(d, d.next_row()->0.id)),
        forall|why: Seq<char>| steady(#[trigger] not_begun(d, d.next_row()->0.id, why)),
{
    let rows = d.queue.rows;
    let id = d.next_row()->0.id;
    queue::lemma_first_waiting(rows, 0);
    queue::lemma_first_running(rows, 0);
    queue::lemma_first_with(rows, id, 0);
    let w = queue::first_waiting(rows, 0)->0;
    let k = queue::first_with(rows, id, 0)->0;
    assert(rows[w].id == id);
    assert(k == w);
    let after = queue::with_status(rows, id, Fate::Running);
    queue::downloads_are_made_one_at_a_time(rows, id, Fate::Running);
    queue::lemma_first_running(after, 0);
    assert(after[k].status is Running);
    assert forall|j: int| 0 <= j < after.len() implies (#[trigger] after[j]).id == rows[j].id by {}
    assert forall|why: Seq<char>| steady(#[trigger] not_begun(d, id, why)) by {
        let failed = queue::with_status(rows, id, Fate::Failed(why));
        queue::downloads_are_made_one_at_a_time(rows, id, Fate::Failed(why));
        queue::lemma_first_running(failed, 0);
        assert forall|j: int| 0 <= j < failed.len() implies (#[trigger] failed[j]).id == rows[j].id
            && !(failed[j].status is Running) by {
            assert(!(rows[j].status is Running));
        }
    }
}

/// A link that is put in the queue starts nothing and stops nothing.
pub proof fn queueing_keeps_the_screen_steady(d: Desk)
    requires
        steady(d),
        d.queue.next_id < u32::MAX,
    ensures
        steady(enqueued(d)),
{
    if d.can_queue() {
        let rows = d.queue.rows;
        queue::full_queue_refuses(rows);
        let known = if preview::concerns(d.preview, d.wish()) {
            d.preview.info
        } else {
            None
        };
        queue::numbers_are_never_reused(d.queue, d.wish(), d.out_dir->0, known);
        let new = queue::new_row(d.queue.next_id, d.wish(), d.out_dir->0, known);
        queue::lemma_waiting_row_runs_nothing(rows, new);
    }
}

/// Cancelling ends the download that is being made and no other.
pub proof fn cancelling_keeps_the_screen_steady(d: Desk)
    requires
        steady(d),
    ensures
        steady(cancelled(d)),
        d.running_id() matches Some(id) ==> !queue::runs(cancelled(d).queue.rows, id),
{
    if d.running_id() is Some {
        let id = d.running_id()->0;
        lemma_running_id_runs(d);
        lemma_ending_leaves_none(d.queue, id, Fate::Cancelled);
        queue::lemma_first_running(cancelled(d).queue.rows, 0);
    }
}

/// What a download reports that is not being made concerns no one: neither its end nor its
/// failure nor its progress changes anything, unless the tools are being worked on.
pub proof fn report_of_a_stopped_download_is_ignored(
    s: Step,
    id: DownloadId,
    file: Split,
    message: Seq<char>,
    p: Progress,
    i: int,
    now: u64,
)
    requires
        !s.desk.setup.busy(),
        !queue::runs(s.desk.queue.rows, id),
        p.download_id == id,
    ensures
        told(s, News::Done { id, file }, i, now) == s,
        told(s, News::Failed { id, message }, i, now) == s,
        told(s, News::Progress(p), i, now) == s,
{
    reveal(told);
}

/// The screen after the start agrees with the queue.
pub proof fn screen_starts_steady(
    format: Format,
    quality: Quality,
    options: DownloadOptions,
    out_dir: Option<Seq<char>>,
)
    ensures
        steady(fresh(format, quality, options, out_dir)),
{
}

/// An answer to a question that was dropped never reaches the screen: once the link has been
/// changed there is no question under way until the site is asked anew.
pub proof fn answer_to_a_former_question_is_not_taken(
    d: Desk,
    list: Seq<News>,
    disconnected: bool,
    now: u64,
)
    requires
        !preview::is_of(d.preview, text::trimmed(d.url), d.cookies, d.cookie_file),
    ensures
        preview_ticked(retargeted(d, now), list, disconnected) == (
            retargeted(d, now),
            None::<int>,
        ),
{
}

/// The desk says what the session holds, field by field.
pub proof fn desk_says_what_the_session_holds(s: Session)
    ensures
        s@.url == s.url@ && s@.format == s.format && s@.quality == s.quality && s@.options
            == s.options && s@.section == s.section && s@.section_broken == s.section_broken,
        s@.cookies == s.cookies && s@.progress == s.progress && s@.ffmpeg_missing
            == s.ffmpeg_missing && s@.attached == s.attached,
        s@.stage == s.stage@ && s@.meta_line == s.meta_line@ && s@.progress_line
            == s.progress_line@ && s@.done_path_display == s.done_path_display@,
        s@.quality_note == s.quality_note@ && s@.sub_lang_label == s.sub_lang_label@,
        s.out_dir is Some <==> s@.out_dir is Some,
        s.out_dir is Some ==> s@.out_dir->0 == s.out_dir->0@,
        s.cookie_file is Some <==> s@.cookie_file is Some,
        s.cookie_file is Some ==> s@.cookie_file->0.path == s.cookie_file->0.path@,
        s.setup_error is Some <==> s@.setup_error is Some,
        s.setup_error is Some ==> s@.setup_error->0 == s.setup_error->0@,
        s.warning is Some <==> s@.warning is Some,
        s.warning is Some ==> s@.warning->0 == s.warning->0@,
        s.notice is Some <==> s@.notice is Some,
        s.notice is Some ==> s@.notice->0 == s.notice->0@,
        s.sub_lang is Original <==> s@.sub_lang is Original,
        s.sub_lang matches SubLang::Code(c) ==> s@.sub_lang == Language::Code(c@),
        s.state is Idle <==> s@.state is Idle,
        s.state is Queued <==> s@.state is Queued,
        s.state is Running <==> s@.state is Running,
        s.state is Cancelled <==> s@.state is Cancelled,
        s.state matches State::Done(path) ==> s@.state == Phase::Done(path@),
        s.state matches State::Failed(why) ==> s@.state == Phase::Failed(why@),
        s.setup is Ready <==> s@.setup is Ready,
        s.setup is Installing <==> s@.setup is Installing,
        s.setup matches Setup::Updating(what) ==> s@.setup == Stand::Updating(what),
        s.setup matches Setup::Failed(why) ==> s@.setup == Stand::Failed(why@),
        s@.log.len() == s.log.lines@.len(),
        forall|i: int|
            0 <= i < s.log.lines@.len() ==> s@.log[i] == (#[trigger] s.log.lines@[i])@,
        s@.queue.next_id == s.queue.next_id && s@.queue.rows.len() == s.queue.items@.len(),
        forall|i: int|
            0 <= i < s.queue.items@.len() ==> row_tells(
                s@.queue.rows[i],
                #[trigger] s.queue.items@[i],
            ),
        s@.preview.url == s.preview.url@ && s@.preview.cookies == s.preview.cookies
            && s@.preview.due == s.preview.due && s@.preview.asking == s.preview.asking
            && s@.preview.covered == s.preview.covered && s@.preview.state == s.preview.state,
        s@.history.len() == s.history.entries@.len(),
        forall|i: int|
            0 <= i < s.history.entries@.len() ==> s@.history[i].name == (
            #[trigger] s.history.entries@[i]).name@ && s@.history[i].dir_display
                == s.history.entries@[i].dir_display@ && s@.history[i].path.path
                == s.history.entries@[i].path.path@,
{
    assert forall|i: int| 0 <= i < s.queue.items@.len() implies row_tells(
        s@.queue.rows[i],
        #[trigger] s.queue.items@[i],
    ) by {
        assert(s@.queue.rows[i] == s.queue.items@[i]@);
    }
    assert forall|i: int| 0 <= i < s.history.entries@.len() implies s@.history[i].name == (
    #[trigger] s.history.entries@[i]).name@ && s@.history[i].dir_display
        == s.history.entries@[i].dir_display@ && s@.history[i].path.path
        == s.history.entries@[i].path.path@ by {
        assert(s@.history[i] == s.history.entries@[i]@);
    }
}

/// Whether a row says what an item of the queue holds.
pub open spec fn row_tells(row: Row, item: QueueItem) -> bool {
    &&& row.id == item.id
    &&& row.request == item.request@
    &&& row.out_dir == item.out_dir@
    &&& row.title == item.title@
    &&& row.known == model::facts(item.known)
    &&& item.status is Waiting <==> row.status is Waiting
    &&& item.status is Running <==> row.status is Running
    &&& item.status is Done <==> row.status is Done
    &&& item.status is Cancelled <==> row.status is Cancelled
    &&& item.status matches QueueStatus::Failed(why) ==> row.status == Fate::Failed(why@)
}

/// A link can be put in the queue where there is one, a folder to save to, the tools and bounds
/// that can be read, and room: fewer than fifty rows, or one that has had its turn.
pub proof fn link_can_be_queued_where_all_is_there(s: Session)
    ensures
        s@.url_ready() <==> text::trimmed(s.url@).len() > 0 && s.out_dir is Some && s.setup_error
            is None && !s.section_broken,
        s@.can_queue() <==> s@.url_ready() && (s.queue.items@.len() < 50 || exists|i: int|
            0 <= i < s.queue.items@.len() && !((#[trigger] s.queue.items@[i]).status is Waiting)
                && !(s.queue.items@[i].status is Running)),
{
    desk_says_what_the_session_holds(s);
    let rows = s@.queue.rows;
    if s.queue.items@.len() >= 50 {
        if queue::is_full(rows) {
            assert forall|i: int| 0 <= i < s.queue.items@.len() implies (
            #[trigger] s.queue.items@[i]).status is Waiting || s.queue.items@[i].status is Running by {
                assert(row_tells(rows[i], s.queue.items@[i]));
                assert(!rows[i].status.finished());
            }
        } else {
            let i = choose|i: int| 0 <= i < rows.len() && (#[trigger] rows[i]).status.finished();
            assert(row_tells(rows[i], s.queue.items@[i]));
        }
    }
}

/// The row that queueing adds holds exactly what was chosen on the screen at that moment, each
/// part of it, and nothing else of the screen changes but what it says of the state.
pub proof fn queued_link_is_what_was_chosen(before: Session, after: Session)
    requires
        before@.can_queue(),
        after@ == enqueued(before@),
    ensures
        after.queue.items@.len() > 0,
        ({
            let row = after.queue.items@.last();
            &&& row.request.url@ == text::trimmed(before.url@)
            &&& row.request.format == before.format
            &&& row.request.quality == before.quality
            &&& row.request.options == before.options
            &&& row.request.section == before.section
            &&& row.request.cookies == before.cookies
            &&& row.request.cookie_file is Some <==> before.cookie_file is Some
            &&& before.cookie_file is Some ==> row.request.cookie_file->0.path@
                == before.cookie_file->0.path@
            &&& model::same_language(row.request.sub_lang, before.sub_lang)
            &&& row.out_dir@ == before.out_dir->0@
            &&& row.status is Waiting
            &&& row.id == before.queue.next_id
        }),
        before.queue.items@.len() < 50 ==> after.queue.items@.len() == before.queue.items@.len() + 1
            && forall|i: int|
            0 <= i < before.queue.items@.len() ==> (#[trigger] after.queue.items@[i])@
                == before.queue.items@[i]@,
        before.queue.items@.len() >= 50 ==> after.queue.items@.len() == before.queue.items@.len(),
        before.state is Running ==> after.state is Running,
        !(before.state is Running) ==> after.state is Queued,
        after.url@ == before.url@ && after.format == before.format && after.quality
            == before.quality && after.options == before.options && after.section == before.section
            && after.cookies == before.cookies,
        after@.preview == before@.preview && after@.history == before@.history && after@.log
            == before@.log && after@.progress == before@.progress,
{
    desk_says_what_the_session_holds(before);
    desk_says_what_the_session_holds(after);
    queue::full_queue_refuses(before@.queue.rows);
    queue::lemma_first_finished(before@.queue.rows, 0);
    let n = after.queue.items@.len() - 1;
    let rows = after@.queue.rows;
    assert(rows[n] == after.queue.items@[n]@);
    assert(rows[n].request == before@.wish());
    if before.queue.items@.len() < 50 {
        assert forall|i: int| 0 <= i < before.queue.items@.len() implies (
        #[trigger] after.queue.items@[i])@ == before.queue.items@[i]@ by {
            assert(rows[i] == before@.queue.rows[i]);
        }
    }
}

/// A row is named by the title that the site told of the very same link under the same login,
/// or by the link itself.
pub proof fn queued_link_is_named_by_its_title(d: Desk)
    requires
        d.can_queue(),
    ensures
        ({
            let row = enqueued(d).queue.rows.last();
            let asked = d.preview.url == text::trimmed(d.url) && d.preview.cookies == d.cookies
                && paths::same_option(d.preview.cookie_file, d.cookie_file);
            &&& asked && d.preview.info is Some && d.preview.info->0.title is Some ==> row.title
                == d.preview.info->0.title->0
            &&& !asked || d.preview.info is None ==> row.title == text::trimmed(d.url)
            &&& asked ==> row.known == d.preview.info
            &&& !asked ==> row.known is None
        }),
{
}

/// The download that is started is the first row that waits, with all that was asked for when
/// it was queued; none is started while one is being made, or the tools are being worked on.
pub proof fn first_row_that_waits_is_started(s: Session, launch: Option<Launch>, k: int)
    requires
        is_launch(launch, s@.next_row()),
    ensures
        s.state is Running || s.setup is Installing || s.setup is Updating ==> launch is None,
        (forall|i: int|
            0 <= i < s.queue.items@.len() ==> !((#[trigger] s.queue.items@[i]).status is Waiting))
            ==> launch is None,
        !(s.state is Running) && !(s.setup is Installing) && !(s.setup is Updating) && 0 <= k
            < s.queue.items@.len() && s.queue.items@[k].status is Waiting && (forall|i: int|
            0 <= i < k ==> !((#[trigger] s.queue.items@[i]).status is Waiting)) ==> {
            &&& launch is Some
            &&& launch->0.id == s.queue.items@[k].id
            &&& model::same_request(launch->0.request, s.queue.items@[k].request)
            &&& launch->0.out_dir@ == s.queue.items@[k].out_dir@
            &&& model::facts(launch->0.known) == model::facts(s.queue.items@[k].known)
        },
{
    desk_says_what_the_session_holds(s);
    let rows = s@.queue.rows;
    queue::lemma_first_waiting(rows, 0);
    assert forall|i: int| 0 <= i < rows.len() implies rows[i].status is Waiting
        == s.queue.items@[i].status is Waiting by {
        assert(row_tells(rows[i], s.queue.items@[i]));
    }
    if 0 <= k < s.queue.items@.len() {
        assert(row_tells(rows[k], s.queue.items@[k]));
        if launch is Some && launch->0.request@ == s.queue.items@[k].request@ {
            model::requests_that_say_the_same_ask_for_the_same(
                launch->0.request,
                s.queue.items@[k].request,
            );
        }
    }
}

/// A download that was begun runs: its row says so, the screen says so, and what was shown of
/// the last one is gone.
pub proof fn begun_download_runs(d: Desk, id: DownloadId, k: int)
    requires
        0 <= k < d.queue.rows.len(),
        d.queue.rows[k].id == id,
        queue::distinct(d.queue.rows),
    ensures
        ({
            let after = begun(d, id);
            &&& after.state == Phase::Running
            &&& after.attached
            &&& after.stage == "Запуск…"@
            &&& after.progress.downloaded == 0 && after.progress.total == 0
            &&& after.log.len() == 0 && after.done_path_display.len() == 0
            &&& after.progress_line == "Запуск…"@
            &&& after.history == d.history && after.url == d.url
        }),
        only_row_changed(d.queue, begun(d, id).queue, k, Fate::Running),
        forall|why: Seq<char>| {
            let after = #[trigger] not_begun(d, id, why);
            &&& after.state == Phase::Failed(why)
            &&& after.setup_error == Some(why)
            &&& only_row_changed(d.queue, after.queue, k, Fate::Failed(why))
        },
{
    lemma_only_row_changes(d.queue, id, k, Fate::Running);
    assert forall|why: Seq<char>| {
        let after = #[trigger] not_begun(d, id, why);
        &&& after.state == Phase::Failed(why)
        &&& after.setup_error == Some(why)
        &&& only_row_changed(d.queue, after.queue, k, Fate::Failed(why))
    } by {
        lemma_only_row_changes(d.queue, id, k, Fate::Failed(why));
    }
}

/// Whether of two queues the second differs in nothing but the state of one row.
pub open spec fn only_row_changed(before: Line, after: Line, k: int, status: Fate) -> bool {
    &&& after.rows.len() == before.rows.len()
    &&& after.next_id == before.next_id
    &&& after.rows[k].status == status
    &&& after.rows[k].id == before.rows[k].id
    &&& after.rows[k].request == before.rows[k].request
    &&& after.rows[k].out_dir == before.rows[k].out_dir
    &&& after.rows[k].title == before.rows[k].title
    &&& forall|i: int|
        0 <= i < before.rows.len() && i != k ==> #[trigger] after.rows[i] == before.rows[i]
}

proof fn lemma_only_row_changes(line: Line, id: DownloadId, k: int, status: Fate)
    requires
        0 <= k < line.rows.len(),
        line.rows[k].id == id,
        queue::distinct(line.rows),
    ensures
        only_row_changed(
            line,
            Line { rows: queue::with_status(line.rows, id, status), next_id: line.next_id },
            k,
            status,
        ),
{
    queue::lemma_first_with(line.rows, id, 0);
    let j = queue::first_with(line.rows, id, 0)->0;
    if j < k {
        assert(line.rows[j].id != line.rows[k].id);
    }
}

/// A download that ends well is done: its row says so, its file is on top of the history and on
/// the screen, and the next one is started.
pub proof fn download_that_ended_well_is_done(
    s: Step,
    id: DownloadId,
    file: Split,
    k: int,
    i: int,
    now: u64,
)
    requires
        0 <= k < s.desk.queue.rows.len(),
        s.desk.queue.rows[k].id == id,
        s.desk.queue.rows[k].status is Running,
        queue::distinct(s.desk.queue.rows),
    ensures
        ({
            let after = told(s, News::Done { id, file }, i, now);
            &&& after.desk.state == Phase::Done(file.path)
            &&& after.desk.stage == "Готово"@
            &&& after.desk.done_path_display == file.path
            &&& after.desk.history.len() > 0 && after.desk.history[0].path == file
            &&& only_row_changed(s.desk.queue, after.desk.queue, k, Fate::Done)
            &&& after.marks.advance && after.marks.progress
            &&& after.desk.log == s.desk.log && after.desk.url == s.desk.url && after.desk.preview
                == s.desk.preview
        }),
{
    reveal(told);
    assert(queue::runs(s.desk.queue.rows, id));
    lemma_only_row_changes(s.desk.queue, id, k, Fate::Done);
}

/// A download that fails says why, in its row and on the screen, and the next one is started;
/// no file is remembered.
pub proof fn download_that_failed_says_why(
    s: Step,
    id: DownloadId,
    message: Seq<char>,
    k: int,
    i: int,
    now: u64,
)
    requires
        0 <= k < s.desk.queue.rows.len(),
        s.desk.queue.rows[k].id == id,
        s.desk.queue.rows[k].status is Running,
        queue::distinct(s.desk.queue.rows),
        !(s.desk.setup is Installing) && !(s.desk.setup is Updating),
    ensures
        ({
            let after = told(s, News::Failed { id, message }, i, now);
            &&& after.desk.state == Phase::Failed(message)
            &&& after.desk.stage == "Ошибка"@
            &&& only_row_changed(s.desk.queue, after.desk.queue, k, Fate::Failed(message))
            &&& after.marks.advance && after.marks.progress
            &&& after.desk.history == s.desk.history && after.desk.log == s.desk.log
        }),
{
    reveal(told);
    assert(queue::runs(s.desk.queue.rows, id));
    lemma_only_row_changes(s.desk.queue, id, k, Fate::Failed(message));
}

/// What a running download reports is shown: its progress, what it does, what it logs, and what
/// it warns of. Nothing else of the screen changes.
pub proof fn reports_are_shown(
    s: Step,
    p: Progress,
    words: Seq<char>,
    i: int,
    now: u64,
)
    ensures
        queue::runs(s.desk.queue.rows, p.download_id) ==> told(s, News::Progress(p), i, now)
            == (Step {
            desk: Desk { progress: p, ..s.desk },
            marks: Marks { progress: true, ..s.marks },
            ..s
        }),
        told(s, News::Stage(words), i, now) == (Step {
            desk: Desk { stage: words, ..s.desk },
            marks: Marks { progress: true, ..s.marks },
            ..s
        }),
        told(s, News::Log(words), i, now).desk.log.last() == words,
        s.desk.log.len() < 400 ==> told(s, News::Log(words), i, now).desk.log == s.desk.log.push(
            words,
        ),
        told(s, News::Warning(words), i, now).desk.warning == Some(words),
        told(s, News::Notice(words), i, now).desk.notice == Some(words),
        told(s, News::Warning(words), i, now).desk.queue == s.desk.queue,
        told(s, News::Notice(words), i, now).desk.queue == s.desk.queue,
        told(s, News::Log(words), i, now).desk.queue == s.desk.queue,
{
    reveal(told);
}

/// What the site tells of a running download names its row, and is shown where the screen is of
/// the same link and has no answer yet.
pub proof fn running_download_gets_its_title(
    s: Step,
    facts: Facts,
    k: int,
    i: int,
    now: u64,
)
    requires
        0 <= k < s.desk.queue.rows.len(),
        s.desk.queue.rows[k].status is Running,
        queue::one_at_a_time(s.desk.queue.rows),
        queue::distinct(s.desk.queue.rows),
    ensures
        ({
            let after = told(s, News::Info(facts), i, now).desk;
            let row = s.desk.queue.rows[k];
            &&& facts.title is Some ==> after.queue.rows[k].title == facts.title->0
            &&& facts.title is None ==> after.queue == s.desk.queue
            &&& after.queue.rows.len() == s.desk.queue.rows.len()
            &&& forall|j: int|
                0 <= j < s.desk.queue.rows.len() && j != k ==> #[trigger] after.queue.rows[j]
                    == s.desk.queue.rows[j]
            &&& s.desk.preview.info is None && s.desk.preview.url == row.request.url
                && s.desk.preview.cookies == row.request.cookies && paths::same_option(
                s.desk.preview.cookie_file,
                row.request.cookie_file,
            ) ==> after.preview.info == Some(facts) && after.preview.state == PreviewState::Ready
            &&& s.desk.preview.info is Some ==> after.preview == s.desk.preview
            &&& s.desk.preview.url != row.request.url ==> after.preview == s.desk.preview
        }),
{
    reveal(told);
    let rows = s.desk.queue.rows;
    let id = rows[k].id;
    queue::lemma_first_running(rows, 0);
    queue::lemma_first_with(rows, id, 0);
    assert(queue::first_running(rows, 0) == Some(k));
    let j = queue::first_with(rows, id, 0)->0;
    if j < k {
        assert(rows[j].id != rows[k].id);
    }
    assert(j == k);
    if facts.title is Some {
        let named = queue::with_title(rows, id, facts.title->0);
        queue::lemma_first_running(named, 0);
        assert(named[k].status is Running && named[k].request == rows[k].request);
        let m = queue::first_running(named, 0)->0;
        assert(named[m].status == rows[m].status);
        assert(m == k);
    }
}

/// Cancelling stops the download that is being made: its row says so and the screen says so;
/// what waits goes on waiting.
pub proof fn cancelled_download_is_stopped(d: Desk, k: int)
    requires
        0 <= k < d.queue.rows.len(),
        d.queue.rows[k].status is Running,
        queue::one_at_a_time(d.queue.rows),
        queue::distinct(d.queue.rows),
    ensures
        ({
            let after = cancelled(d);
            &&& after.state == Phase::Cancelled
            &&& !after.attached
            &&& after.stage == "Отменено"@
            &&& after.progress_line.len() == 0
            &&& only_row_changed(d.queue, after.queue, k, Fate::Cancelled)
            &&& after.history == d.history && after.url == d.url && after.log == d.log
        }),
{
    queue::lemma_first_running(d.queue.rows, 0);
    assert(queue::first_running(d.queue.rows, 0) == Some(k));
    lemma_only_row_changes(d.queue, d.queue.rows[k].id, k, Fate::Cancelled);
}

/// Once a worker says no more, the download that was being made counts as done, and the next
/// one is started.
pub proof fn silent_end_counts_as_done(d: Desk, marks: Marks, k: int)
    requires
        0 <= k < d.queue.rows.len(),
        d.queue.rows[k].status is Running,
        queue::one_at_a_time(d.queue.rows),
        queue::distinct(d.queue.rows),
    ensures
        only_row_changed(d.queue, closed(d).queue, k, Fate::Done),
        !closed(d).attached,
        d.state is Running ==> closed(d).state == Phase::Idle,
        !(d.state is Running) ==> closed(d).state == d.state,
        goes_on(Step { desk: d, marks, cover: None }, true),
        !goes_on(Step { desk: d, marks: Marks { advance: false, ..marks }, cover: None }, false),
        goes_on(Step { desk: d, marks: Marks { advance: true, ..marks }, cover: None }, false),
{
    queue::lemma_first_running(d.queue.rows, 0);
    assert(queue::first_running(d.queue.rows, 0) == Some(k));
    lemma_only_row_changes(d.queue, d.queue.rows[k].id, k, Fate::Done);
}

/// Work on the tools ends with what came of it; a question that the site did not answer is
/// asked once more, since a tool may have been missing.
pub proof fn tools_are_ready_once_they_are(s: Step, d: Desk, message: Seq<char>, i: int, now: u64)
    ensures
        told(s, News::Ready, i, now).desk.setup == Stand::Ready,
        told(s, News::Ready, i, now).marks.tools,
        s.desk.setup is Installing || s.desk.setup is Updating ==> {
            let after = told(s, News::Failed { id: model::NO_DOWNLOAD, message }, i, now);
            after.desk.setup == Stand::Failed(message) && after.marks.tools && after.desk.queue
                == s.desk.queue
        },
        ({
            let after = setup_finished(d, Stand::Ready, now);
            &&& !after.attached && after.stage.len() == 0 && after.progress_line.len() == 0
            &&& after.queue == d.queue && after.state == d.state && after.url == d.url
            &&& d.preview.state == PreviewState::Failed && d.preview.url.len() > 0
                ==> after.preview.state == PreviewState::Asking && after.preview.due is Some
            &&& d.preview.state != PreviewState::Failed ==> after.preview == d.preview
        }),
{
    reveal(told);
}

/// An update says what is updated and begins anew: what was said of an earlier one is gone.
pub proof fn update_says_what_is_updated(d: Desk, what: Component)
    ensures
        ({
            let after = updating(d, what);
            &&& after.setup == Stand::Updating(what)
            &&& after.attached
            &&& after.warning is None && after.notice is None
            &&& after.progress.downloaded == 0 && after.progress.total == 0
            &&& what == Component::Ytdlp ==> after.stage == "Проверяю версию…"@
            &&& what == Component::Ffmpeg ==> after.stage == "Готовлюсь скачивать…"@
            &&& after.progress_line == after.stage
            &&& after.queue == d.queue && after.url == d.url && after.history == d.history
        }),
{
}

/// The state of the screen in a word, and its colour.
pub proof fn states_have_their_words(path: Seq<char>, why: Seq<char>)
    ensures
        status_word(Phase::Idle) == ("Готов к работе"@, Tone::Secondary),
        status_word(Phase::Queued) == ("В очереди"@, Tone::Secondary),
        status_word(Phase::Running) == ("Загрузка"@, Tone::Accent),
        status_word(Phase::Done(path)) == ("Готово"@, Tone::Success),
        status_word(Phase::Failed(why)) == ("Ошибка"@, Tone::Error),
        status_word(Phase::Cancelled) == ("Отменено"@, Tone::Secondary),
{
}

/// Where a download can be started: with a link where all is there that it needs, with an empty
/// field where something waits; never while one is being made or without the tools.
pub proof fn download_can_be_started_where_something_waits(d: Desk, k: int)
    ensures
        d.state is Running || d.setup_error is Some ==> !d.can_go(),
        !(d.state is Running) && d.setup_error is None && text::trimmed(d.url).len() > 0 ==> (
        d.can_go() <==> d.out_dir is Some && !d.section_broken),
        !(d.state is Running) && d.setup_error is None && text::trimmed(d.url).len() == 0 && 0 <= k
            < d.queue.rows.len() && d.queue.rows[k].status is Waiting ==> d.can_go(),
        text::trimmed(d.url).len() == 0 && (forall|i: int|
            0 <= i < d.queue.rows.len() ==> !((#[trigger] d.queue.rows[i]).status is Waiting))
            ==> !d.can_go(),
{
    queue::lemma_first_waiting(d.queue.rows, 0);
}

/// A link that was changed is asked about anew, after a pause, with the login that is chosen;
/// what was told of the former one is gone from the screen.
pub proof fn changed_link_is_asked_about(d: Desk, now: u64)
    ensures
        ({
            let url = text::trimmed(d.url);
            let after = retargeted(d, now);
            let same = d.preview.url == url && d.preview.cookies == d.cookies
                && paths::same_option(d.preview.cookie_file, d.cookie_file);
            &&& same ==> after == d
            &&& !same ==> {
                &&& after.preview.info is None && !after.preview.asking && !after.preview.covered
                &&& after.preview.cookies == d.cookies && after.preview.cookie_file == d.cookie_file
                &&& after.meta_line.len() == 0 && after.quality_note.len() == 0
                &&& preview::is_link(url) ==> after.preview.url == url && after.preview.state
                    == PreviewState::Asking && after.preview.due is Some
                &&& preview::is_link(url) && now < 0xFFFF_FFFF_FFFF_0000 ==> after.preview.due
                    == Some((now + 800) as u64)
                &&& !preview::is_link(url) ==> after.preview.due is None && after.preview.state
                    == PreviewState::Idle
            }
            &&& after.queue == d.queue && after.url == d.url && after.state == d.state
                && after.section == d.section
        }),
{
}

/// The answer to the question about the link is shown, and a picture with it; without a question
/// under way nothing is taken.
pub proof fn answer_to_the_question_is_shown(
    d: Desk,
    facts: Facts,
    i: int,
    cover: Option<int>,
    list: Seq<News>,
    disconnected: bool,
)
    ensures
        asked_told(d, News::Info(facts), i, cover).0.preview.info == Some(facts),
        asked_told(d, News::Info(facts), i, cover).0.preview.state == PreviewState::Ready,
        asked_told(d, News::Thumbnail { valid: true }, i, cover) == (
            Desk { preview: Question { covered: true, ..d.preview }, ..d },
            Some(i),
        ),
        asked_told(d, News::Thumbnail { valid: false }, i, cover) == (d, cover),
        asked_told(d, News::Info(facts), i, cover).0.queue == d.queue,
        !d.preview.asking ==> preview_ticked(d, list, disconnected) == (d, None::<int>),
        d.preview.asking && disconnected && list.len() == 0 && d.preview.info is None
            && d.preview.state == PreviewState::Asking ==> preview_ticked(
            d,
            list,
            disconnected,
        ).0.preview.state == PreviewState::Failed,
        d.preview.asking ==> preview_ticked(
            d,
            seq![News::Info(facts)],
            disconnected,
        ).0.preview.info == Some(facts),
{
    let one = seq![News::Info(facts)];
    assert(one.drop_last() =~= Seq::empty());
    let start = if disconnected {
        Desk { preview: preview::ended(d.preview, preview::any_answer(one)), ..d }
    } else {
        d
    };
    assert(asked_all(start, one.drop_last()) == (start, None::<int>));
    assert(asked_all(start, one) == asked_told(start, News::Info(facts), 0, None));
    assert(one[0] is Info);
    assert(preview::any_answer(one));
}

/// The lines of the screen are put together from what it shows.
pub proof fn lines_tell_what_is_shown(d: Desk)
    ensures
        d.with_progress_line().progress_line == lines::progress_text(d.stage, d.progress),
        d.with_facts_lines().meta_line == lines::facts_text(d.preview.info),
        d.with_facts_lines().quality_note == lines::quality_words(
            d.format,
            d.quality,
            d.preview.info,
        ),
        d.with_facts_lines().sub_lang_label == lines::language_text(d.sub_lang, d.preview.info),
        renewed(d, Marks { progress: true, facts: false, advance: false, tools: false })
            == d.with_progress_line(),
        renewed(d, no_marks()) == d,
{
}

/// The screen begins with the settings of the last run and with nothing else.
pub proof fn screen_begins_with_the_settings(
    format: Format,
    quality: Quality,
    options: DownloadOptions,
    out_dir: Option<Seq<char>>,
)
    ensures
        ({
            let d = fresh(format, quality, options, out_dir);
            &&& d.format == format && d.quality == quality && d.options == options && d.out_dir
                == out_dir
            &&& d.url.len() == 0 && d.queue.rows.len() == 0 && d.queue.next_id == 1
                && d.history.len() == 0 && d.log.len() == 0
            &&& d.section.start is None && d.section.end is None && !d.section_broken
            &&& d.cookies == CookieSource::Off && d.cookie_file is None && d.sub_lang is Original
            &&& d.state == Phase::Idle && d.setup == Stand::Ready && !d.attached
        }),
{
}

/// Reports are taken one by one, in their order; once they are, the lines are renewed that need
/// it, and the download that was being made is over where no more will come.
pub proof fn reports_are_taken_in_order(
    d: Desk,
    list: Seq<News>,
    next: News,
    now: u64,
    s: Step,
)
    ensures
        told_all(d, Seq::empty(), now) == (Step {
            desk: d,
            marks: Marks { progress: false, facts: false, advance: false, tools: false },
            cover: None,
        }),
        told_all(d, list.push(next), now) == told(
            told_all(d, list, now),
            next,
            list.len() as int,
            now,
        ),
        !s.marks.progress && !s.marks.facts ==> settled(s, false) == s.desk,
        s.marks.progress && !s.marks.facts ==> settled(s, false) == (Desk {
            progress_line: lines::progress_text(s.desk.stage, s.desk.progress),
            ..s.desk
        }),
        s.marks.facts && !s.marks.progress ==> settled(s, false) == (Desk {
            meta_line: lines::facts_text(s.desk.preview.info),
            quality_note: lines::quality_words(
                s.desk.format,
                s.desk.quality,
                s.desk.preview.info,
            ),
            sub_lang_label: lines::language_text(s.desk.sub_lang, s.desk.preview.info),
            ..s.desk
        }),
        settled(s, true) == closed(settled(s, false)),
        cover_at(None) is None,
        forall|i: usize| #[trigger] cover_at(Some(i)) == Some(i as int),
{
    assert(list.push(next).drop_last() =~= list);
}

/// Reports on the question are taken one by one, in their order.
pub proof fn answers_are_taken_in_order(d: Desk, list: Seq<News>, next: News)
    ensures
        asked_all(d, Seq::empty()) == (d, None::<int>),
        ({
            let (before, cover) = asked_all(d, list);
            asked_all(d, list.push(next)) == asked_told(before, next, list.len() as int, cover)
        }),
{
    assert(list.push(next).drop_last() =~= list);
}

/// A download that ended in one batch of reports leads to the next one: a waiting row behind a
/// running one is started once that is done.
pub proof fn next_download_follows(d: Desk, id: DownloadId, file: Split, k: int, j: int, now: u64)
    requires
        0 <= k < d.queue.rows.len(),
        0 <= j < d.queue.rows.len(),
        d.queue.rows[k].id == id,
        d.queue.rows[k].status is Running,
        d.queue.rows[j].status is Waiting,
        forall|i: int| 0 <= i < j ==> !((#[trigger] d.queue.rows[i]).status is Waiting),
        queue::distinct(d.queue.rows),
        !(d.setup is Installing) && !(d.setup is Updating),
    ensures
        ({
            let step = told_all(d, seq![News::Done { id, file }], now);
            let after = settled(step, false);
            &&& goes_on(step, false)
            &&& after.next_row() == Some(d.queue.rows[j])
            &&& after.history.len() > 0 && after.history[0].path == file
            &&& after.queue.rows[k].status is Done
        }),
{
    let done = News::Done { id, file };
    let none = Seq::<News>::empty();
    assert(seq![done] =~= none.push(done));
    let start = Step { desk: d, marks: no_marks(), cover: None };
    reports_are_taken_in_order(d, none, done, now, start);
    download_that_ended_well_is_done(start, id, file, k, 0, now);
    let step = told_all(d, seq![done], now);
    let after = settled(step, false);
    reveal(told);
    assert(after.queue == step.desk.queue);
    assert(after.state == step.desk.state);
    assert(after.setup == d.setup);
    let rows = after.queue.rows;
    queue::lemma_first_waiting(rows, 0);
    assert(rows[j] == d.queue.rows[j]);
    assert forall|i: int| 0 <= i < j implies !((#[trigger] rows[i]).status is Waiting) by {
        if i != k {
            assert(rows[i] == d.queue.rows[i]);
        }
    }
    let f = queue::first_waiting(rows, 0)->0;
    assert(f == j);
}

/// What the site is asked about is the link of the question under its login, with all else as it
/// is chosen on the screen.
pub proof fn site_is_asked_for_what_is_chosen(s: Session, r: Request)
    requires
        r@ == (Wish {
            url: s@.preview.url,
            cookies: s@.preview.cookies,
            cookie_file: s@.preview.cookie_file,
            ..s@.wish()
        }),
    ensures
        r.url@ == s.preview.url@ && r.cookies == s.preview.cookies,
        r.cookie_file is Some <==> s.preview.cookie_file is Some,
        s.preview.cookie_file is Some ==> r.cookie_file->0.path@ == s.preview.cookie_file->0.path@,
        r.format == s.format && r.quality == s.quality && r.options == s.options && r.section
            == s.section,
        model::same_language(r.sub_lang, s.sub_lang),
{
}

} // verus!
