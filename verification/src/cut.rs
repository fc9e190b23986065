//! Cutting a piece out of a file that has been downloaded whole.
use crate::paths;
use crate::text;
use vstd::prelude::*;

verus! {

/// A piece of a recording, in whole seconds; an open bound is the start or the end of it.
#[derive(Debug, Clone, Copy, PartialEq, Eq, Structural)]
pub struct Section {
    pub start: Option<u64>,
    pub end: Option<u64>,
}

/// How many lines of what ffmpeg complains of are kept: the first ones, since the first
/// names the cause and the rest are its consequences.
pub const TAIL_LINES: usize = 4;

/// The name of the file that the piece is written to while it is not ready: the stem, a
/// mark, and the extension, by which ffmpeg picks the container.
pub open spec fn temp_name_of(name: Seq<char>) -> Seq<char> {
    match paths::extension_of(name) {
        Some(e) => paths::stem_of(name) + ".savio-cut"@ + seq!['.'] + e,
        None => paths::stem_of(name) + ".savio-cut"@,
    }
}

pub fn temp_name(name: &str) -> (r: String)
    ensures
        r@ == temp_name_of(name@),
{
    let mut out = paths::file_stem(name);
    out.append(".savio-cut");
    if let Some(e) = paths::extension(name) {
        out.push('.');
        out.append(e.as_str());
    }
    assert(out@ =~= temp_name_of(name@));
    out
}

/// The path of that file: a sibling of the original, so that renaming stays on one volume.
pub fn temp_path(file: &str) -> (r: String)
    ensures
        exists|name: Option<Seq<char>>| #[trigger]
            paths::may_be_name(file@, name) && paths::may_be_sibling(
                file@,
                temp_name_of(
                    (match name {
                        Some(n) => n,
                        None => Seq::empty(),
                    }),
                ),
                r@,
            ),
{
    let name = paths::file_name(file);
    assert(paths::may_be_name(file@, text::said(name)));
    let own = match name {
        Some(n) => n,
        None => String::new(),
    };
    let changed = temp_name(own.as_str());
    paths::with_file_name(file, changed.as_str())
}

/// The flag for one bound, with the bound; nothing for an open one.
pub open spec fn bound_args(flag: Seq<char>, bound: Option<u64>) -> Seq<Seq<char>> {
    match bound {
        Some(secs) => seq![flag, text::decimal(secs as nat)],
        None => Seq::empty(),
    }
}

/// The arguments of ffmpeg that cut a piece without encoding anew. The bounds stand in front
/// of the input, so that ffmpeg winds to the place, and all tracks are taken along.
pub open spec fn arguments(input: Seq<char>, output: Seq<char>, section: Section) -> Seq<
    Seq<char>,
> {
    seq!["-hide_banner"@, "-v"@, "error"@, "-y"@] + bound_args("-ss"@, section.start) + bound_args(
        "-to"@,
        section.end,
    ) + seq!["-i"@, input, "-map"@, "0"@, "-c"@, "copy"@, output]
}

pub fn args(input: &str, output: &str, section: Section) -> (r: Vec<String>)
    ensures
        text::views(r@) == arguments(input@, output@, section),
{
    let mut out: Vec<String> = Vec::new();
    out.push("-hide_banner".to_owned());
    out.push("-v".to_owned());
    out.push("error".to_owned());
    out.push("-y".to_owned());
    assert(text::views(out@) =~= seq!["-hide_banner"@, "-v"@, "error"@, "-y"@]);
    let ghost first = text::views(out@);
    if let Some(secs) = section.start {
        out.push("-ss".to_owned());
        out.push(text::decimal_text(secs));
    }
    assert(text::views(out@) =~= first + bound_args("-ss"@, section.start));
    let ghost second = text::views(out@);
    if let Some(secs) = section.end {
        out.push("-to".to_owned());
        out.push(text::decimal_text(secs));
    }
    assert(text::views(out@) =~= second + bound_args("-to"@, section.end));
    let ghost third = text::views(out@);
    out.push("-i".to_owned());
    out.push(input.to_owned());
    out.push("-map".to_owned());
    out.push("0".to_owned());
    out.push("-c".to_owned());
    out.push("copy".to_owned());
    out.push(output.to_owned());
    assert(text::views(out@) =~= third + seq![
        "-i"@,
        input@,
        "-map"@,
        "0"@,
        "-c"@,
        "copy"@,
        output@,
    ]);
    out
}

/// Both bounds stand in front of the input: each flag that is there is followed by its bound,
/// and the input flag comes behind both.
pub proof fn bounds_stand_before_the_input(
    input: Seq<char>,
    output: Seq<char>,
    section: Section,
)
    ensures
        ({
            let all = arguments(input, output, section);
            let starts = bound_args("-ss"@, section.start);
            let ends = bound_args("-to"@, section.end);
            let at = 4 + starts.len() as int + ends.len() as int;
            &&& all.subrange(4, at) == starts + ends
            &&& all[at] == "-i"@
            &&& all[at + 1] == input
            &&& all.last() == output
        }),
{
    let all = arguments(input, output, section);
    let starts = bound_args("-ss"@, section.start);
    let ends = bound_args("-to"@, section.end);
    assert(all.subrange(4, 4 + starts.len() as int + ends.len() as int) =~= starts + ends);
}

/// The command as it is written to the log.
pub open spec fn command_line(args: Seq<Seq<char>>) -> Seq<char> {
    "ffmpeg "@ + text::joined(args, seq![' '])
}

pub fn log_line(args: &Vec<String>) -> (r: String)
    ensures
        r@ == command_line(text::views(args@)),
{
    let mut out = "ffmpeg ".to_owned();
    let mut space = String::new();
    space.push(' ');
    assert(space@ =~= seq![' ']);
    out.append(text::join(args, space.as_str()).as_str());
    out
}

/// What ffmpeg complained of so far.
#[derive(Debug)]
pub struct Complaints {
    pub lines: Vec<String>,
}

/// The lines kept once `line` has come: blank lines do not count, and neither do those
/// behind the first few.
pub open spec fn noted(lines: Seq<Seq<char>>, line: Seq<char>) -> Seq<Seq<char>> {
    if text::trimmed(line).len() > 0 && lines.len() < TAIL_LINES {
        lines.push(line)
    } else {
        lines
    }
}

impl View for Complaints {
    type V = Seq<Seq<char>>;

    open spec fn view(&self) -> Seq<Seq<char>> {
        text::views(self.lines@)
    }
}

impl Complaints {
    pub fn new() -> (r: Complaints)
        ensures
            r@ == Seq::<Seq<char>>::empty(),
    {
        let lines: Vec<String> = Vec::new();
        assert(text::views(lines@) =~= Seq::empty());
        Complaints { lines }
    }

    /// Takes a line of the output; tells whether it belongs in the log.
    pub fn note(&mut self, line: &str) -> (logged: bool)
        ensures
            logged == (text::trimmed(line@).len() > 0),
            final(self)@ == noted(old(self)@, line@),
    {
        let bare = text::trim(line);
        if bare.as_str().is_empty() {
            return false;
        }
        if self.lines.len() < TAIL_LINES {
            self.lines.push(line.to_owned());
            assert(self@ =~= old(self)@.push(line@));
        }
        true
    }
}

/// How cutting ended.
#[derive(Debug)]
pub enum Outcome {
    /// The piece stands in the place of the file.
    Done,
    /// It was cancelled: neither the piece nor the file is left.
    Cancelled,
    /// It failed for this reason; the file is left whole.
    Failed(String),
}

/// What is known once ffmpeg has been asked to run, at each point where something is decided.
#[derive(Debug)]
pub enum CutEvent {
    /// ffmpeg could not be started.
    NotStarted(String),
    /// ffmpeg has no error output to read.
    NoErrorOutput,
    /// ffmpeg runs, under the control of the download.
    Adopted,
    /// The download was cancelled while ffmpeg was being started; ffmpeg has been killed.
    CancelledAtStart,
    /// ffmpeg could not be put under the control of the download.
    NotAdopted(String),
    /// ffmpeg is gone without a trace.
    Lost,
    /// ffmpeg has ended.
    Exited { cancelled: bool, success: bool, code: Option<i32> },
    /// The piece has been looked at: whether it is there and not empty.
    Looked { present: bool },
    /// The piece has taken the place of the file.
    Renamed,
    /// The piece could not take the place of the file.
    NotRenamed(String),
}

/// What is to be done next.
#[derive(Debug)]
pub enum CutAction {
    /// Read what ffmpeg writes until it ends.
    Watch,
    /// Look whether the piece is there.
    Look,
    /// Put the piece in the place of the file.
    Rename,
    /// Stop: kill ffmpeg if asked to, remove the piece and the file if asked to.
    Finish { kill: bool, remove_piece: bool, remove_file: bool, outcome: Outcome },
}

/// What an [`Outcome`] says.
pub enum Ending {
    Done,
    Cancelled,
    Failed(Seq<char>),
}

/// What a [`CutAction`] says.
pub enum Reaction {
    Watch,
    Look,
    Rename,
    Finish { kill: bool, remove_piece: bool, remove_file: bool, outcome: Ending },
}

impl View for Outcome {
    type V = Ending;

    open spec fn view(&self) -> Ending {
        match *self {
            Outcome::Done => Ending::Done,
            Outcome::Cancelled => Ending::Cancelled,
            Outcome::Failed(why) => Ending::Failed(why@),
        }
    }
}

impl View for CutAction {
    type V = Reaction;

    open spec fn view(&self) -> Reaction {
        match *self {
            CutAction::Watch => Reaction::Watch,
            CutAction::Look => Reaction::Look,
            CutAction::Rename => Reaction::Rename,
            CutAction::Finish { kill, remove_piece, remove_file, outcome } => Reaction::Finish {
                kill,
                remove_piece,
                remove_file,
                outcome: outcome@,
            },
        }
    }
}

/// Ends with a failure; the file stays, the piece goes where one may be there.
pub open spec fn fails(why: Seq<char>, kill: bool, remove_piece: bool) -> Reaction {
    Reaction::Finish { kill, remove_piece, remove_file: false, outcome: Ending::Failed(why) }
}

/// Ends with a cancellation; nothing is left.
pub open spec fn cancels() -> Reaction {
    Reaction::Finish {
        kill: false,
        remove_piece: true,
        remove_file: true,
        outcome: Ending::Cancelled,
    }
}

/// How a failure of ffmpeg is told.
pub open spec fn exit_text(code: Option<i32>, complaints: Seq<Seq<char>>) -> Seq<char> {
    let head = "ffmpeg завершился с ошибкой (код "@ + text::signed(
        (match code {
            Some(c) => c as int,
            None => -1,
        }),
    );
    if complaints.len() == 0 {
        head + ")"@
    } else {
        head + "):\n"@ + text::joined(complaints, seq!['\n'])
    }
}

/// What follows from each event. A cancellation is asked for before the exit code: a killed
/// ffmpeg ends with an error. An exit code is no proof either: the piece is looked at.
pub open spec fn reaction(event: CutEvent, complaints: Seq<Seq<char>>) -> Reaction {
    match event {
        CutEvent::NotStarted(e) => fails("не удалось запустить ffmpeg: "@ + e@, false, false),
        CutEvent::NoErrorOutput => fails("у ffmpeg нет stderr"@, true, false),
        CutEvent::Adopted => Reaction::Watch,
        CutEvent::CancelledAtStart => cancels(),
        CutEvent::NotAdopted(e) => fails(e@, false, false),
        CutEvent::Lost => fails("ffmpeg потерян"@, false, false),
        CutEvent::Exited { cancelled, success, code } => if cancelled {
            cancels()
        } else if success {
            Reaction::Look
        } else {
            fails(exit_text(code, complaints), false, true)
        },
        CutEvent::Looked { present } => if present {
            Reaction::Rename
        } else {
            fails(
                "ffmpeg отчитался об успехе, а файла с фрагментом не оставил"@,
                false,
                true,
            )
        },
        CutEvent::Renamed => Reaction::Finish {
            kill: false,
            remove_piece: false,
            remove_file: false,
            outcome: Ending::Done,
        },
        CutEvent::NotRenamed(e) => fails(
            "не удалось заменить файл вырезанным куском: "@ + e@,
            false,
            true,
        ),
    }
}

fn failure(why: String, kill: bool, remove_piece: bool) -> (r: CutAction)
    ensures
        r@ == fails(why@, kill, remove_piece),
{
    CutAction::Finish { kill, remove_piece, remove_file: false, outcome: Outcome::Failed(why) }
}

fn cancelled() -> (r: CutAction)
    ensures
        r@ == cancels(),
{
    CutAction::Finish {
        kill: false,
        remove_piece: true,
        remove_file: true,
        outcome: Outcome::Cancelled,
    }
}

fn prefixed(head: &str, tail: &String) -> (r: String)
    ensures
        r@ == head@ + tail@,
{
    let mut out = head.to_owned();
    out.append(tail.as_str());
    out
}

fn exit_message(code: Option<i32>, complaints: &Complaints) -> (r: String)
    ensures
        r@ == exit_text(code, complaints@),
{
    let number: i32 = match code {
        Some(c) => c,
        None => -1,
    };
    let mut out = "ffmpeg завершился с ошибкой (код ".to_owned();
    out.append(text::signed_text(number as i64).as_str());
    if complaints.lines.len() == 0 {
        out.append(")");
    } else {
        out.append("):\n");
        let mut line = String::new();
        line.push('\n');
        assert(line@ =~= seq!['\n']);
        out.append(text::join(&complaints.lines, line.as_str()).as_str());
    }
    out
}

/// Decides what to do next.
pub fn cut(event: &CutEvent, complaints: &Complaints) -> (r: CutAction)
    ensures
        r@ == reaction(*event, complaints@),
{
    match event {
        CutEvent::NotStarted(e) => failure(
            prefixed("не удалось запустить ffmpeg: ", e),
            false,
            false,
        ),
        CutEvent::NoErrorOutput => failure("у ffmpeg нет stderr".to_owned(), true, false),
        CutEvent::Adopted => CutAction::Watch,
        CutEvent::CancelledAtStart => cancelled(),
        CutEvent::NotAdopted(e) => failure(e.clone(), false, false),
        CutEvent::Lost => failure("ffmpeg потерян".to_owned(), false, false),
        CutEvent::Exited { cancelled: stopped, success, code } => if *stopped {
            cancelled()
        } else if *success {
            CutAction::Look
        } else {
            failure(exit_message(*code, complaints), false, true)
        },
        CutEvent::Looked { present } => if *present {
            CutAction::Rename
        } else {
            failure(
                "ffmpeg отчитался об успехе, а файла с фрагментом не оставил".to_owned(),
                false,
                true,
            )
        },
        CutEvent::Renamed => CutAction::Finish {
            kill: false,
            remove_piece: false,
            remove_file: false,
            outcome: Outcome::Done,
        },
        CutEvent::NotRenamed(e) => failure(
            prefixed("не удалось заменить файл вырезанным куском: ", e),
            false,
            true,
        ),
    }
}

/// The downloaded file is removed where cutting was cancelled, and nowhere else: a cut that
/// failed leaves it whole. A piece that was cut but not used is never left behind.
pub proof fn only_cancelling_removes_the_file(event: CutEvent, complaints: Seq<Seq<char>>)
    ensures
        match reaction(event, complaints) {
            Reaction::Finish { remove_file, remove_piece, outcome, .. } => {
                &&& remove_file == (outcome is Cancelled)
                &&& outcome is Cancelled ==> remove_piece
                &&& (event is Looked || event is NotRenamed) ==> remove_piece
                &&& outcome is Done <==> event is Renamed
            },
            _ => true,
        },
{
}

/// The whole command: a piece is cut out from its start to its end without encoding anew, with
/// all tracks, from the one file to the other. An open bound is left out.
pub proof fn command_cuts_the_piece(input: Seq<char>, output: Seq<char>, from: u64, to: u64)
    ensures
        ({
            let first = seq!["-hide_banner"@, "-v"@, "error"@, "-y"@];
            let last = seq!["-i"@, input, "-map"@, "0"@, "-c"@, "copy"@, output];
            let start = seq!["-ss"@, text::decimal(from as nat)];
            let end = seq!["-to"@, text::decimal(to as nat)];
            &&& arguments(input, output, Section { start: Some(from), end: Some(to) }) == first
                + start + end + last
            &&& arguments(input, output, Section { start: Some(from), end: None }) == first + start
                + last
            &&& arguments(input, output, Section { start: None, end: Some(to) }) == first + end
                + last
            &&& arguments(input, output, Section { start: None, end: None }) == first + last
        }),
{
    let first = seq!["-hide_banner"@, "-v"@, "error"@, "-y"@];
    let last = seq!["-i"@, input, "-map"@, "0"@, "-c"@, "copy"@, output];
    let start = seq!["-ss"@, text::decimal(from as nat)];
    let end = seq!["-to"@, text::decimal(to as nat)];
    assert(arguments(input, output, Section { start: Some(from), end: None }) =~= first + start
        + last);
    assert(arguments(input, output, Section { start: None, end: Some(to) }) =~= first + end + last);
    assert(arguments(input, output, Section { start: None, end: None }) =~= first + last);
}

/// The piece has a name of its own beside the file: with the same extension, and behind it no
/// two files share theirs.
pub proof fn piece_is_named_after_the_file(stem: Seq<char>, extension: Seq<char>)
    requires
        stem.len() > 0,
        !extension.contains('.'),
        stem != seq!['.'] || extension.len() > 0,
    ensures
        temp_name_of(stem + "."@ + extension) == stem + ".savio-cut."@ + extension,
        temp_name_of(stem + "."@ + extension) != stem + "."@ + extension,
        !stem.contains('.') ==> temp_name_of(stem) == stem + ".savio-cut"@,
{
    reveal_strlit(".");
    reveal_strlit(".savio-cut");
    reveal_strlit(".savio-cut.");
    paths::stem_and_extension_are_found(stem, extension);
    let name = stem + "."@ + extension;
    assert(temp_name_of(name) =~= stem + ".savio-cut."@ + extension);
    assert(temp_name_of(name).len() > name.len());
    if !stem.contains('.') {
        paths::name_without_a_dot_is_a_stem(stem);
    }
}

/// What is kept of the complaints: the first four that are not blank.
pub proof fn first_complaints_are_kept(lines: Seq<Seq<char>>, line: Seq<char>)
    ensures
        text::trimmed(line).len() == 0 ==> noted(lines, line) == lines,
        text::trimmed(line).len() > 0 && lines.len() < 4 ==> noted(lines, line) == lines.push(line),
        lines.len() >= 4 ==> noted(lines, line) == lines,
{
}

/// Each event has its answer: a cut that was stopped is a cancellation whatever the exit code,
/// a success is believed once the piece is seen, and a failure tells its reason.
pub proof fn every_event_has_its_answer(
    success: bool,
    code: Option<i32>,
    why: String,
    complaints: Seq<Seq<char>>,
)
    ensures
        reaction(CutEvent::Adopted, complaints) == Reaction::Watch,
        reaction(CutEvent::Exited { cancelled: false, success: true, code }, complaints)
            == Reaction::Look,
        reaction(CutEvent::Looked { present: true }, complaints) == Reaction::Rename,
        reaction(CutEvent::Renamed, complaints) == (Reaction::Finish {
            kill: false,
            remove_piece: false,
            remove_file: false,
            outcome: Ending::Done,
        }),
        ({
            let stopped = Reaction::Finish {
                kill: false,
                remove_piece: true,
                remove_file: true,
                outcome: Ending::Cancelled,
            };
            &&& reaction(CutEvent::Exited { cancelled: true, success, code }, complaints) == stopped
            &&& reaction(CutEvent::CancelledAtStart, complaints) == stopped
        }),
        reaction(CutEvent::NotStarted(why), complaints) == (Reaction::Finish {
            kill: false,
            remove_piece: false,
            remove_file: false,
            outcome: Ending::Failed("не удалось запустить ffmpeg: "@ + why@),
        }),
        reaction(CutEvent::NoErrorOutput, complaints) == (Reaction::Finish {
            kill: true,
            remove_piece: false,
            remove_file: false,
            outcome: Ending::Failed("у ffmpeg нет stderr"@),
        }),
        reaction(CutEvent::NotAdopted(why), complaints) == (Reaction::Finish {
            kill: false,
            remove_piece: false,
            remove_file: false,
            outcome: Ending::Failed(why@),
        }),
        reaction(CutEvent::Lost, complaints) == (Reaction::Finish {
            kill: false,
            remove_piece: false,
            remove_file: false,
            outcome: Ending::Failed("ffmpeg потерян"@),
        }),
        reaction(CutEvent::Looked { present: false }, complaints) == (Reaction::Finish {
            kill: false,
            remove_piece: true,
            remove_file: false,
            outcome: Ending::Failed(
                "ffmpeg отчитался об успехе, а файла с фрагментом не оставил"@,
            ),
        }),
        reaction(CutEvent::NotRenamed(why), complaints) == (Reaction::Finish {
            kill: false,
            remove_piece: true,
            remove_file: false,
            outcome: Ending::Failed("не удалось заменить файл вырезанным куском: "@ + why@),
        }),
{
}

/// A failure of ffmpeg is told by its exit code, -1 where it has none, and by what it complained
/// of, line by line.
pub proof fn failure_tells_code_and_complaints(code: i32, complaints: Seq<Seq<char>>)
    ensures
        ({
            let r = reaction(
                CutEvent::Exited { cancelled: false, success: false, code: Some(code) },
                complaints,
            );
            let head = "ffmpeg завершился с ошибкой (код "@ + text::signed(code as int);
            r == (Reaction::Finish {
                kill: false,
                remove_piece: true,
                remove_file: false,
                outcome: Ending::Failed(
                    (if complaints.len() == 0 {
                        head + ")"@
                    } else {
                        head + "):\n"@ + text::joined(complaints, "\n"@)
                    }),
                ),
            })
        }),
        reaction(
            CutEvent::Exited { cancelled: false, success: false, code: None },
            complaints,
        ) == reaction(
            CutEvent::Exited { cancelled: false, success: false, code: Some((-1) as i32) },
            complaints,
        ),
{
    reveal_strlit("\n");
    assert("\n"@ =~= seq!['\n']);
}

/// A reaction says what is to be done.
pub proof fn reaction_says_what_is_to_be_done(a: CutAction)
    ensures
        a is Watch <==> a@ is Watch,
        a is Look <==> a@ is Look,
        a is Rename <==> a@ is Rename,
        a matches CutAction::Finish { kill, remove_piece, remove_file, outcome } ==> a@ == (
        Reaction::Finish { kill, remove_piece, remove_file, outcome: outcome@ }) && (outcome is Done
            <==> outcome@ is Done) && (outcome is Cancelled <==> outcome@ is Cancelled) && (
        outcome matches Outcome::Failed(why) ==> outcome@ == Ending::Failed(why@)),
{
}

/// The command is written to the log as it is run, with one space between each two arguments.
pub proof fn command_is_logged_as_it_is_run(list: Seq<Seq<char>>)
    ensures
        command_line(list) == "ffmpeg "@ + text::joined(list, " "@),
{
    reveal_strlit(" ");
    assert(" "@ =~= seq![' ']);
}

} // verus!
