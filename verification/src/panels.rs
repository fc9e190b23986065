//! The screens for metadata, for the system report and for power settings.
use crate::events;
use crate::events::{Event, News};
use crate::metadata;
use crate::metadata::kind;
use crate::metadata::kind::MetaKind;
use crate::metadata::tag;
use crate::metadata::tag::{Tag, TagText};
use crate::paths;
use crate::power;
use crate::power::PowerState;
use crate::report::{Finding, SystemReport};
use crate::text;
use crate::tone::Tone;
use crate::units;
use vstd::prelude::*;

verus! {

/// What came of the last operation.
#[derive(Debug)]
pub struct Outcome {
    pub text: String,
    pub tone: Tone,
}

/// What an optional [`Outcome`] says.
pub open spec fn outcome_text(o: Option<Outcome>) -> Option<(Seq<char>, Tone)> {
    match o {
        Some(o) => Some((o.text@, o.tone)),
        None => None,
    }
}

/// The screen for metadata.
#[derive(Debug)]
pub struct MetaPanel {
    pub path: Option<String>,
    pub path_display: String,
    /// Why nothing can be done with the file.
    pub blocked: Option<String>,
    pub readable: bool,
    pub cleanable: bool,
    pub busy: bool,
    pub stage: String,
    /// What was read; an empty list is a result too.
    pub tags: Option<Vec<Tag>>,
    pub outcome: Option<Outcome>,
    /// Whether it is being asked if the file may be written over.
    pub confirming: bool,
}

/// What a [`MetaPanel`] says.
#[verifier::ext_equal]
pub struct MetaScreen {
    pub path: Option<Seq<char>>,
    pub path_display: Seq<char>,
    pub blocked: Option<Seq<char>>,
    pub readable: bool,
    pub cleanable: bool,
    pub busy: bool,
    pub stage: Seq<char>,
    pub tags: Option<Seq<TagText>>,
    pub outcome: Option<(Seq<char>, Tone)>,
    pub confirming: bool,
}

/// What optional tags say.
pub open spec fn tag_texts(tags: Option<Vec<Tag>>) -> Option<Seq<TagText>> {
    match tags {
        Some(list) => Some(tag::texts(list@)),
        None => None,
    }
}

/// The screen before a file is chosen.
pub open spec fn empty_meta() -> MetaScreen {
    MetaScreen {
        path: None,
        path_display: "файл не выбран"@,
        blocked: None,
        readable: false,
        cleanable: false,
        busy: false,
        stage: Seq::empty(),
        tags: None,
        outcome: None,
        confirming: false,
    }
}

/// The screen once a file of a kind was chosen: what can be done with it is decided here, and
/// what was found in another file is gone.
pub open spec fn selected(s: MetaScreen, path: Seq<char>, kind: MetaKind) -> MetaScreen {
    MetaScreen {
        path: Some(path),
        path_display: path,
        blocked: (if kind.can_be_read() && kind.can_be_cleaned() {
            None
        } else {
            Some(metadata::refusal(kind))
        }),
        readable: kind.can_be_read(),
        cleanable: kind.can_be_cleaned(),
        tags: None,
        outcome: None,
        stage: Seq::empty(),
        ..s
    }
}

/// The screen once work on the file was begun.
pub open spec fn meta_begun(s: MetaScreen) -> MetaScreen {
    MetaScreen { busy: true, tags: None, outcome: None, stage: "Запуск…"@, ..s }
}

/// What is said once metadata was removed: no bytes freed means that there was nothing to
/// remove, and is no failure.
pub open spec fn cleaned_outcome(freed: u64) -> (Seq<char>, Tone) {
    if freed == 0 {
        ("Удалять было нечего: метаданных в файле нет."@, Tone::Secondary)
    } else {
        ("Метаданные удалены, освобождено "@ + units::size(freed as nat), Tone::Success)
    }
}

/// The screen once a report has come.
pub open spec fn meta_told(s: MetaScreen, n: News) -> MetaScreen {
    match n {
        News::Stage(stage) => MetaScreen { stage, ..s },
        News::Tags(list) => MetaScreen { tags: Some(list), busy: false, ..s },
        News::Cleaned(freed) => MetaScreen {
            outcome: Some(cleaned_outcome(freed)),
            busy: false,
            ..s
        },
        News::Failed { id, message } => MetaScreen {
            outcome: Some((message, Tone::Error)),
            busy: false,
            ..s
        },
        _ => s,
    }
}

/// The screen once all reports have come, in their order.
pub open spec fn meta_all(s: MetaScreen, list: Seq<News>) -> MetaScreen
    decreases list.len(),
{
    if list.len() == 0 {
        s
    } else {
        meta_told(meta_all(s, list.drop_last()), list.last())
    }
}

impl View for MetaPanel {
    type V = MetaScreen;

    open spec fn view(&self) -> MetaScreen {
        MetaScreen {
            path: text::said(self.path),
            path_display: self.path_display@,
            blocked: text::said(self.blocked),
            readable: self.readable,
            cleanable: self.cleanable,
            busy: self.busy,
            stage: self.stage@,
            tags: tag_texts(self.tags),
            outcome: outcome_text(self.outcome),
            confirming: self.confirming,
        }
    }
}

impl MetaPanel {
    pub fn new() -> (r: MetaPanel)
        ensures
            r@ == empty_meta(),
    {
        MetaPanel {
            path: None,
            path_display: "файл не выбран".to_owned(),
            blocked: None,
            readable: false,
            cleanable: false,
            busy: false,
            stage: String::new(),
            tags: None,
            outcome: None,
            confirming: false,
        }
    }

    /// Takes the file of a kind that was chosen.
    pub fn select_kind(&mut self, path: &str, kind: MetaKind)
        ensures
            final(self)@ == selected(old(self)@, path@, kind),
    {
        self.readable = kind.readable();
        self.cleanable = kind.cleanable();
        self.blocked = if kind.readable() && kind.cleanable() {
            None
        } else {
            Some(metadata::unsupported_message(kind))
        };
        self.path_display = path.to_owned();
        self.path = Some(path.to_owned());
        self.tags = None;
        self.outcome = None;
        self.stage = String::new();
    }

    /// Takes the file that was chosen.
    pub fn select(&mut self, path: &str)
        ensures
            exists|name: Option<Seq<char>>| #[trigger]
                paths::may_be_name(path@, name) && final(self)@ == selected(
                    old(self)@,
                    path@,
                    kind::kind_of_name(name),
                ),
    {
        let kind = kind::meta_kind(path);
        let ghost name = choose|name: Option<Seq<char>>| #[trigger]
            paths::may_be_name(path@, name) && kind == kind::kind_of_name(name);
        self.select_kind(path, kind);
        assert(paths::may_be_name(path@, name));
    }

    /// Begins work on the file; tells whether there is a file.
    pub fn start(&mut self) -> (r: bool)
        ensures
            r == (old(self)@.path is Some),
            final(self)@ == (if r {
                meta_begun(old(self)@)
            } else {
                old(self)@
            }),
    {
        if self.path.is_none() {
            return false;
        }
        self.busy = true;
        self.tags = None;
        self.outcome = None;
        self.stage = "Запуск…".to_owned();
        true
    }

    fn tell(&mut self, event: Event)
        ensures
            final(self)@ == meta_told(old(self)@, event@),
    {
        match event {
            Event::Stage(stage) => {
                self.stage = stage;
            },
            Event::Tags(list) => {
                self.tags = Some(list);
                self.busy = false;
            },
            Event::Cleaned(freed) => {
                self.outcome = Some(
                    if freed == 0 {
                        Outcome {
                            text: "Удалять было нечего: метаданных в файле нет.".to_owned(),
                            tone: Tone::Secondary,
                        }
                    } else {
                        let mut text = "Метаданные удалены, освобождено ".to_owned();
                        text.append(units::human_bytes(freed).as_str());
                        Outcome { text, tone: Tone::Success }
                    },
                );
                self.busy = false;
            },
            Event::Failed { id, message } => {
                self.outcome = Some(Outcome { text: message, tone: Tone::Error });
                self.busy = false;
            },
            _ => {},
        }
    }

    /// Takes the reports that have come; `disconnected` tells that no more will.
    pub fn drain(&mut self, reports: Vec<Event>, disconnected: bool)
        ensures
            final(self)@ == ({
                let told = meta_all(old(self)@, events::news(reports@));
                if disconnected {
                    MetaScreen { busy: false, ..told }
                } else {
                    told
                }
            }),
    {
        let ghost list = reports@;
        let ghost all = events::news(list);
        assert(all.take(0) =~= Seq::empty());
        for event in it: reports.into_iter()
            invariant
                it.seq() == list,
                all == events::news(list),
                self@ == meta_all(old(self)@, all.take(it.index())),
        {
            proof {
                let i = it.index();
                assert(all[i] == event@);
                assert(all.take(i + 1).drop_last() =~= all.take(i));
                assert(all.take(i + 1).last() == all[i]);
            }
            self.tell(event);
        }
        assert(all.take(list.len() as int) =~= all);
        if disconnected {
            self.busy = false;
        }
    }
}

/// What is answered to the question whether the file may be written over.
#[derive(Debug, Clone, Copy, PartialEq, Eq, Structural)]
pub enum Answer {
    Yes,
    No,
    /// Nothing yet.
    Open,
}

/// Whether the question is closed by an answer, or by putting it away.
pub open spec fn closes(answer: Answer, dismissed: bool) -> bool {
    answer != Answer::Open || dismissed
}

/// The screen once the question was answered.
pub open spec fn meta_answered(s: MetaScreen, answer: Answer, dismissed: bool) -> MetaScreen {
    let after = MetaScreen { confirming: s.confirming && !closes(answer, dismissed), ..s };
    if answer == Answer::Yes && s.path is Some {
        meta_begun(after)
    } else {
        after
    }
}

/// What is said at a button that cannot be pressed.
pub open spec fn meta_hint(s: MetaScreen) -> Seq<char> {
    match s.blocked {
        Some(why) => why,
        None => "Сначала выберите файл."@,
    }
}

impl MetaPanel {
    /// Whether metadata can be read now.
    pub fn can_read(&self) -> (r: bool)
        ensures
            r == (self@.readable && !self@.busy),
    {
        self.readable && !self.busy
    }

    /// Whether metadata can be removed now.
    pub fn can_clean(&self) -> (r: bool)
        ensures
            r == (self@.cleanable && !self@.busy),
    {
        self.cleanable && !self.busy
    }

    /// What is said at a button that cannot be pressed.
    pub fn hint(&self) -> (r: &str)
        ensures
            r@ == meta_hint(self@),
    {
        match &self.blocked {
            Some(why) => why.as_str(),
            None => "Сначала выберите файл.",
        }
    }

    /// Asks whether the file may be written over.
    pub fn ask(&mut self)
        ensures
            final(self)@ == (MetaScreen { confirming: true, ..old(self)@ }),
    {
        self.confirming = true;
    }

    /// Takes the answer; tells whether the work begins.
    pub fn take_answer(&mut self, answer: Answer, dismissed: bool) -> (r: bool)
        ensures
            r == (answer == Answer::Yes && old(self)@.path is Some),
            final(self)@ == meta_answered(old(self)@, answer, dismissed),
    {
        match answer {
            Answer::Yes => {
                self.confirming = false;
                self.start()
            },
            Answer::No => {
                self.confirming = false;
                false
            },
            Answer::Open => {
                if dismissed {
                    self.confirming = false;
                }
                false
            },
        }
    }

    /// Puts away what was read.
    pub fn close_tags(&mut self)
        ensures
            final(self)@ == (MetaScreen { tags: None, ..old(self)@ }),
    {
        self.tags = None;
    }
}

/// Nothing is written over without a yes: any other answer begins no work.
pub proof fn only_a_yes_begins_the_work(s: MetaScreen, answer: Answer, dismissed: bool)
    requires
        answer != Answer::Yes,
    ensures
        meta_answered(s, answer, dismissed) == (MetaScreen {
            confirming: s.confirming && !closes(answer, dismissed),
            ..s
        }),
{
}

/// What is shown of a file belongs to that file: choosing another one leaves nothing of it.
pub proof fn choosing_a_file_forgets_the_last_one(s: MetaScreen, path: Seq<char>, kind: MetaKind)
    ensures
        selected(s, path, kind).tags is None,
        selected(s, path, kind).outcome is None,
        selected(s, path, kind).stage.len() == 0,
        selected(s, path, kind).blocked is Some <==> !kind.can_be_cleaned(),
{
}

/// The screen for the system report.
#[derive(Debug)]
pub struct SystemPanel {
    pub report: Option<SystemReport>,
    pub busy: bool,
    pub stage: String,
    /// Whether a report was ever asked for.
    pub asked: bool,
    /// What came of saving the report.
    pub saved: Option<Outcome>,
}

/// What a [`SystemPanel`] says.
#[verifier::ext_equal]
pub struct SystemScreen {
    pub report: Option<Seq<Finding>>,
    pub busy: bool,
    pub stage: Seq<char>,
    pub asked: bool,
    pub saved: Option<(Seq<char>, Tone)>,
}

/// What an optional report says.
pub open spec fn report_text(r: Option<SystemReport>) -> Option<Seq<Finding>> {
    match r {
        Some(r) => Some(r@),
        None => None,
    }
}

/// The screen once a report has come.
pub open spec fn system_told(s: SystemScreen, n: News) -> SystemScreen {
    match n {
        News::Stage(stage) => SystemScreen { stage, ..s },
        News::SystemReport(r) => SystemScreen { report: Some(r), busy: false, ..s },
        News::Failed { .. } => SystemScreen { busy: false, ..s },
        _ => s,
    }
}

/// The screen once all reports have come, in their order.
pub open spec fn system_all(s: SystemScreen, list: Seq<News>) -> SystemScreen
    decreases list.len(),
{
    if list.len() == 0 {
        s
    } else {
        system_told(system_all(s, list.drop_last()), list.last())
    }
}

impl View for SystemPanel {
    type V = SystemScreen;

    open spec fn view(&self) -> SystemScreen {
        SystemScreen {
            report: report_text(self.report),
            busy: self.busy,
            stage: self.stage@,
            asked: self.asked,
            saved: outcome_text(self.saved),
        }
    }
}

impl SystemPanel {
    pub fn new() -> (r: SystemPanel)
        ensures
            r@ == (SystemScreen {
                report: None,
                busy: false,
                stage: Seq::empty(),
                asked: false,
                saved: None,
            }),
    {
        SystemPanel { report: None, busy: false, stage: String::new(), asked: false, saved: None }
    }

    /// Begins to collect a report; the last one is gone.
    pub fn start(&mut self)
        ensures
            final(self)@ == (SystemScreen {
                report: None,
                busy: true,
                stage: "Запуск…"@,
                asked: true,
                saved: None,
            }),
    {
        self.busy = true;
        self.asked = true;
        self.stage = "Запуск…".to_owned();
        self.report = None;
        self.saved = None;
    }

    fn tell(&mut self, event: Event)
        ensures
            final(self)@ == system_told(old(self)@, event@),
    {
        match event {
            Event::Stage(stage) => {
                self.stage = stage;
            },
            Event::SystemReport(r) => {
                self.report = Some(r);
                self.busy = false;
            },
            Event::Failed { .. } => {
                self.busy = false;
            },
            _ => {},
        }
    }

    /// Takes the reports that have come; `disconnected` tells that no more will.
    pub fn drain(&mut self, reports: Vec<Event>, disconnected: bool)
        ensures
            final(self)@ == ({
                let told = system_all(old(self)@, events::news(reports@));
                if disconnected {
                    SystemScreen { busy: false, ..told }
                } else {
                    told
                }
            }),
    {
        let ghost list = reports@;
        let ghost all = events::news(list);
        assert(all.take(0) =~= Seq::empty());
        for event in it: reports.into_iter()
            invariant
                it.seq() == list,
                all == events::news(list),
                self@ == system_all(old(self)@, all.take(it.index())),
        {
            proof {
                let i = it.index();
                assert(all[i] == event@);
                assert(all.take(i + 1).drop_last() =~= all.take(i));
                assert(all.take(i + 1).last() == all[i]);
            }
            self.tell(event);
        }
        assert(all.take(list.len() as int) =~= all);
        if disconnected {
            self.busy = false;
        }
    }
}

impl SystemPanel {
    /// Whether the report can be saved now.
    pub fn can_save(&self) -> (r: bool)
        ensures
            r == (!self@.busy && self@.report is Some),
    {
        !self.busy && self.report.is_some()
    }

    /// The report was saved at a path.
    pub fn note_saved(&mut self, path: &str)
        ensures
            final(self)@ == (SystemScreen {
                saved: Some(("Отчёт сохранён: "@ + path@, Tone::Success)),
                ..old(self)@
            }),
    {
        let mut text = "Отчёт сохранён: ".to_owned();
        text.append(path);
        self.saved = Some(Outcome { text, tone: Tone::Success });
    }

    /// The report could not be saved.
    pub fn note_unsaved(&mut self, why: &str)
        ensures
            final(self)@ == (SystemScreen {
                saved: Some(("Не удалось сохранить отчёт: "@ + why@, Tone::Error)),
                ..old(self)@
            }),
    {
        let mut text = "Не удалось сохранить отчёт: ".to_owned();
        text.append(why);
        self.saved = Some(Outcome { text, tone: Tone::Error });
    }
}

/// What is to be done about measuring.
#[derive(Debug, Clone, Copy, PartialEq, Eq, Structural)]
pub enum Switch {
    Start,
    Stop,
    Keep,
}

/// The monitor of the machine, as far as it is switched on and off. The measurements are kept
/// where they are drawn.
#[derive(Debug, Clone, Copy, PartialEq, Eq, Structural)]
pub struct MonitorPanel {
    pub running: bool,
    /// Whether the window above the others is shown.
    pub overlay: bool,
    /// Whether that window lets clicks through.
    pub passthrough: bool,
}

impl MonitorPanel {
    pub fn new() -> (r: MonitorPanel)
        ensures
            r == (MonitorPanel { running: false, overlay: false, passthrough: false }),
    {
        MonitorPanel { running: false, overlay: false, passthrough: false }
    }

    /// Whether anyone looks at the measurements: on the page for them, or in the window above
    /// the others.
    pub fn watched(&self, page_open: bool) -> (r: bool)
        ensures
            r == (page_open || self.overlay),
    {
        page_open || self.overlay
    }

    /// Measuring goes on exactly as long as it is wanted; tells what has to be done for that.
    pub fn set_running(&mut self, wanted: bool) -> (r: Switch)
        ensures
            *final(self) == (MonitorPanel { running: wanted, ..*old(self) }),
            r == (if wanted == old(self).running {
                Switch::Keep
            } else if wanted {
                Switch::Start
            } else {
                Switch::Stop
            }),
    {
        if wanted == self.running {
            return Switch::Keep;
        }
        self.running = wanted;
        if wanted {
            Switch::Start
        } else {
            Switch::Stop
        }
    }

    /// Measuring has ended by itself.
    pub fn lose(&mut self)
        ensures
            *final(self) == (MonitorPanel { running: false, ..*old(self) }),
    {
        self.running = false;
    }

    /// Takes note of whether the window above the others was closed from within; tells whether
    /// it is to be drawn.
    pub fn keep_overlay(&mut self, closed: bool) -> (r: bool)
        ensures
            *final(self) == (MonitorPanel { overlay: r, ..*old(self) }),
            r == (old(self).overlay && !closed),
    {
        if closed {
            self.overlay = false;
        }
        self.overlay
    }
}

/// The card for power settings.
#[derive(Debug)]
pub struct PowerPanel {
    pub state: PowerState,
    /// Whether the settings were ever asked for.
    pub asked: bool,
    pub busy: bool,
    /// Whether the card was open at the last look.
    pub open: bool,
    pub outcome: Option<Outcome>,
    /// What is to be said of the power modes.
    pub hint: String,
}

/// What a [`PowerPanel`] says.
#[verifier::ext_equal]
pub struct PowerScreen {
    pub state: PowerState,
    pub asked: bool,
    pub busy: bool,
    pub open: bool,
    pub outcome: Option<(Seq<char>, Tone)>,
    pub hint: Seq<char>,
}

/// The card once a report has come.
pub open spec fn power_told(s: PowerScreen, n: News) -> PowerScreen {
    match n {
        News::Power(state) => PowerScreen { state, hint: power::hint(state), busy: false, ..s },
        News::Notice(t) => PowerScreen { outcome: Some((t, Tone::Success)), ..s },
        News::Warning(t) => PowerScreen { outcome: Some((t, Tone::Warning)), ..s },
        News::Failed { id, message } => PowerScreen {
            outcome: Some((message, Tone::Error)),
            busy: false,
            ..s
        },
        _ => s,
    }
}

/// The card once all reports have come, in their order.
pub open spec fn power_all(s: PowerScreen, list: Seq<News>) -> PowerScreen
    decreases list.len(),
{
    if list.len() == 0 {
        s
    } else {
        power_told(power_all(s, list.drop_last()), list.last())
    }
}

impl View for PowerPanel {
    type V = PowerScreen;

    open spec fn view(&self) -> PowerScreen {
        PowerScreen {
            state: self.state,
            asked: self.asked,
            busy: self.busy,
            open: self.open,
            outcome: outcome_text(self.outcome),
            hint: self.hint@,
        }
    }
}

impl PowerPanel {
    pub fn new() -> (r: PowerPanel)
        ensures
            !r@.asked && !r@.busy && !r@.open,
            r@.outcome is None,
            r@.hint.len() == 0,
            r@.state.is_unknown() && r@.state.trouble is None,
    {
        PowerPanel {
            state: PowerState::default(),
            asked: false,
            busy: false,
            open: false,
            outcome: None,
            hint: String::new(),
        }
    }

    /// Takes note of whether the card is open; tells whether the settings are to be asked for,
    /// which is when it has just been opened.
    pub fn watch(&mut self, open: bool) -> (ask: bool)
        ensures
            ask == (open && !old(self)@.open),
            final(self)@ == (PowerScreen {
                open,
                busy: ask || old(self)@.busy,
                asked: ask || old(self)@.asked,
                ..old(self)@
            }),
    {
        let ask: bool = open && !self.open;
        if ask {
            self.start();
        }
        self.open = open;
        ask
    }

    /// The settings are being asked for.
    pub fn start(&mut self)
        ensures
            final(self)@ == (PowerScreen { busy: true, asked: true, ..old(self)@ }),
    {
        self.busy = true;
        self.asked = true;
    }

    /// A setting is being changed.
    pub fn change(&mut self)
        ensures
            final(self)@ == (PowerScreen {
                busy: true,
                asked: true,
                outcome: None,
                ..old(self)@
            }),
    {
        self.busy = true;
        self.asked = true;
        self.outcome = None;
    }

    /// Takes the settings, and puts together what is to be said of them.
    pub fn accept(&mut self, state: PowerState)
        ensures
            final(self)@ == (PowerScreen { state, hint: power::hint(state), ..old(self)@ }),
    {
        self.hint = power::power_hint(&state);
        self.state = state;
    }

    fn tell(&mut self, event: Event)
        ensures
            final(self)@ == power_told(old(self)@, event@),
    {
        match event {
            Event::Power(state) => {
                self.accept(state);
                self.busy = false;
            },
            Event::Notice(text) => {
                self.outcome = Some(Outcome { text, tone: Tone::Success });
            },
            Event::Warning(text) => {
                self.outcome = Some(Outcome { text, tone: Tone::Warning });
            },
            Event::Failed { id, message } => {
                self.outcome = Some(Outcome { text: message, tone: Tone::Error });
                self.busy = false;
            },
            _ => {},
        }
    }

    /// Takes the reports that have come; `disconnected` tells that no more will.
    pub fn drain(&mut self, reports: Vec<Event>, disconnected: bool)
        ensures
            final(self)@ == ({
                let told = power_all(old(self)@, events::news(reports@));
                if disconnected {
                    PowerScreen { busy: false, ..told }
                } else {
                    told
                }
            }),
    {
        let ghost list = reports@;
        let ghost all = events::news(list);
        assert(all.take(0) =~= Seq::empty());
        for event in it: reports.into_iter()
            invariant
                it.seq() == list,
                all == events::news(list),
                self@ == power_all(old(self)@, all.take(it.index())),
        {
            proof {
                let i = it.index();
                assert(all[i] == event@);
                assert(all.take(i + 1).drop_last() =~= all.take(i));
                assert(all.take(i + 1).last() == all[i]);
            }
            self.tell(event);
        }
        assert(all.take(list.len() as int) =~= all);
        if disconnected {
            self.busy = false;
        }
    }
}

/// What a screen for metadata says is what the panel holds.
pub proof fn metadata_screen_says_what_the_panel_holds(p: MetaPanel)
    ensures
        p.path is Some <==> p@.path is Some,
        p.path is Some ==> p@.path->0 == p.path->0@,
        p@.path_display == p.path_display@ && p@.stage == p.stage@,
        p.blocked is Some <==> p@.blocked is Some,
        p.blocked is Some ==> p@.blocked->0 == p.blocked->0@,
        p@.readable == p.readable && p@.cleanable == p.cleanable && p@.busy == p.busy
            && p@.confirming == p.confirming,
        p.tags is Some <==> p@.tags is Some,
        p.tags is Some ==> p@.tags->0.len() == p.tags->0@.len() && forall|i: int|
            0 <= i < p.tags->0@.len() ==> (#[trigger] p.tags->0@[i]).name@ == p@.tags->0[i].name
                && p.tags->0@[i].value@ == p@.tags->0[i].value,
        p.outcome is Some <==> p@.outcome is Some,
        p.outcome matches Some(o) ==> p@.outcome == Some((o.text@, o.tone)),
{
    if p.tags is Some {
        assert forall|i: int| 0 <= i < p.tags->0@.len() implies (#[trigger] p.tags->0@[i]).name@
            == p@.tags->0[i].name && p.tags->0@[i].value@ == p@.tags->0[i].value by {
            assert(p@.tags->0[i] == p.tags->0@[i]@);
        }
    }
}

/// A file that was chosen is shown by its path, and what can be done with it goes by its kind:
/// pictures and songs can be read and cleaned, a TIFF read, anything else neither, and where
/// something cannot be done it is said why.
pub proof fn chosen_file_says_what_can_be_done(s: MetaScreen, path: Seq<char>, kind: MetaKind)
    ensures
        ({
            let after = selected(s, path, kind);
            let cleanable = kind == MetaKind::Jpeg || kind == MetaKind::Png || kind
                == MetaKind::WebP || kind == MetaKind::Gif || kind == MetaKind::Mp3;
            &&& after.path == Some(path) && after.path_display == path
            &&& after.cleanable == cleanable
            &&& after.readable == (cleanable || kind == MetaKind::Tiff)
            &&& cleanable ==> after.blocked is None
            &&& kind == MetaKind::Video ==> after.blocked == Some(
                "Очистка видео временно не поддерживается."@,
            )
            &&& kind == MetaKind::Unsupported ==> after.blocked == Some(
                "Этот формат не поддерживается. Выберите MP3 или изображение (JPG, PNG, WebP, GIF)."@,
            )
            &&& after.busy == s.busy && after.confirming == s.confirming
        }),
{
}

/// Work on a file begins with nothing of the last one on the screen; a yes begins it and closes
/// the question, a no closes it, and without an answer the question stays open.
pub proof fn answer_decides(s: MetaScreen)
    ensures
        meta_begun(s).busy && meta_begun(s).tags is None && meta_begun(s).outcome is None
            && meta_begun(s).stage == "Запуск…"@ && meta_begun(s).path == s.path,
        s.path is Some ==> meta_answered(s, Answer::Yes, false) == meta_begun(
            MetaScreen { confirming: false, ..s },
        ),
        meta_answered(s, Answer::No, false) == (MetaScreen { confirming: false, ..s }),
        meta_answered(s, Answer::Open, false) == s,
        meta_answered(s, Answer::Open, true) == (MetaScreen { confirming: false, ..s }),
        s.path is None ==> !meta_answered(MetaScreen { busy: false, ..s }, Answer::Yes, false).busy,
        s.blocked is None ==> meta_hint(s) == "Сначала выберите файл."@,
        s.blocked is Some ==> meta_hint(s) == s.blocked->0,
{
}

/// What comes of the work is shown: the tags that were read, how much was freed, or why it
/// failed; and the work is over.
pub proof fn outcome_of_the_work_is_shown(
    s: MetaScreen,
    list: Seq<TagText>,
    freed: u64,
    id: crate::model::DownloadId,
    words: Seq<char>,
)
    ensures
        meta_told(s, News::Tags(list)) == (MetaScreen { tags: Some(list), busy: false, ..s }),
        meta_told(s, News::Cleaned(0)) == (MetaScreen {
            outcome: Some(("Удалять было нечего: метаданных в файле нет."@, Tone::Secondary)),
            busy: false,
            ..s
        }),
        freed > 0 ==> meta_told(s, News::Cleaned(freed)) == (MetaScreen {
            outcome: Some(
                ("Метаданные удалены, освобождено "@ + units::size(freed as nat), Tone::Success),
            ),
            busy: false,
            ..s
        }),
        meta_told(s, News::Failed { id, message: words }) == (MetaScreen {
            outcome: Some((words, Tone::Error)),
            busy: false,
            ..s
        }),
        meta_told(s, News::Stage(words)) == (MetaScreen { stage: words, ..s }),
{
}

/// Reports are taken one by one, in their order.
pub proof fn reports_are_taken_in_order(
    m: MetaScreen,
    s: SystemScreen,
    p: PowerScreen,
    list: Seq<News>,
    next: News,
)
    ensures
        meta_all(m, Seq::empty()) == m && meta_all(m, list.push(next)) == meta_told(
            meta_all(m, list),
            next,
        ),
        system_all(s, Seq::empty()) == s && system_all(s, list.push(next)) == system_told(
            system_all(s, list),
            next,
        ),
        power_all(p, Seq::empty()) == p && power_all(p, list.push(next)) == power_told(
            power_all(p, list),
            next,
        ),
{
    assert(list.push(next).drop_last() =~= list);
}

/// A report on the machine is shown once it has come, and collecting is over; where it failed,
/// collecting is over and what was shown stays.
pub proof fn report_is_shown_once_it_has_come(
    s: SystemScreen,
    r: Seq<Finding>,
    id: crate::model::DownloadId,
    words: Seq<char>,
)
    ensures
        system_told(s, News::SystemReport(r)) == (SystemScreen {
            report: Some(r),
            busy: false,
            ..s
        }),
        system_told(s, News::Failed { id, message: words }) == (SystemScreen { busy: false, ..s }),
        system_told(s, News::Stage(words)) == (SystemScreen { stage: words, ..s }),
{
}

/// What a screen for the system report says is what the panel holds.
pub proof fn system_screen_says_what_the_panel_holds(p: SystemPanel)
    ensures
        p@.busy == p.busy && p@.asked == p.asked && p@.stage == p.stage@,
        p.report is Some <==> p@.report is Some,
        p.report is Some ==> p@.report->0 == p.report->0@,
        p.saved is Some <==> p@.saved is Some,
        p.saved matches Some(o) ==> p@.saved == Some((o.text@, o.tone)),
{
}

/// What the card for power settings says is what the panel holds.
pub proof fn power_card_says_what_the_panel_holds(p: PowerPanel)
    ensures
        p@.state == p.state && p@.asked == p.asked && p@.busy == p.busy && p@.open == p.open
            && p@.hint == p.hint@,
        p.outcome is Some <==> p@.outcome is Some,
        p.outcome matches Some(o) ==> p@.outcome == Some((o.text@, o.tone)),
{
}

/// The power settings are shown once they have come, with what is to be said of them; what came
/// of changing them is told, and in which way it is to be taken.
pub proof fn power_settings_are_shown_once_they_have_come(
    s: PowerScreen,
    state: PowerState,
    id: crate::model::DownloadId,
    words: Seq<char>,
)
    ensures
        power_told(s, News::Power(state)).state == state,
        power_told(s, News::Power(state)).hint == power::hint(state),
        !power_told(s, News::Power(state)).busy,
        power_told(s, News::Power(state)).outcome == s.outcome,
        power_told(s, News::Notice(words)) == (PowerScreen {
            outcome: Some((words, Tone::Success)),
            ..s
        }),
        power_told(s, News::Warning(words)) == (PowerScreen {
            outcome: Some((words, Tone::Warning)),
            ..s
        }),
        power_told(s, News::Failed { id, message: words }) == (PowerScreen {
            outcome: Some((words, Tone::Error)),
            busy: false,
            ..s
        }),
{
}

} // verus!
