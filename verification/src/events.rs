//! What the workers report.
use crate::lines::{Progress, ToolVersion};
use crate::metadata::tag;
use crate::metadata::tag::{Tag, TagText};
use crate::model::{DownloadId, Facts, MediaInfo};
use crate::paths::{FilePath, Split};
use crate::power::PowerState;
use crate::report::{Finding, SystemReport};
use vstd::prelude::*;

verus! {

/// A report of a worker. Pictures and measurements are kept where they are drawn; here it is
/// told only that they came.
#[derive(Debug)]
pub enum Event {
    /// What the site tells of a recording.
    Info(MediaInfo),
    /// A picture came; whether it can be drawn.
    Thumbnail { valid: bool },
    /// What is being done.
    Stage(String),
    Progress(Progress),
    /// A line for the log.
    Log(String),
    /// A download is ready.
    Done { id: DownloadId, file: FilePath },
    /// A download, or whatever else has no number, failed.
    Failed { id: DownloadId, message: String },
    /// The tools are ready.
    Ready,
    Warning(String),
    Notice(String),
    /// The metadata of a file.
    Tags(Vec<Tag>),
    /// Metadata was removed; how many bytes that freed.
    Cleaned(u64),
    /// The versions of the tools.
    Versions { ytdlp: ToolVersion, ffmpeg: ToolVersion },
    SystemReport(SystemReport),
    Power(PowerState),
    /// A measurement of the machine.
    Perf,
}

/// What an [`Event`] says.
pub enum News {
    Info(Facts),
    Thumbnail { valid: bool },
    Stage(Seq<char>),
    Progress(Progress),
    Log(Seq<char>),
    Done { id: DownloadId, file: Split },
    Failed { id: DownloadId, message: Seq<char> },
    Ready,
    Warning(Seq<char>),
    Notice(Seq<char>),
    Tags(Seq<TagText>),
    Cleaned(u64),
    Versions { ytdlp: ToolVersion, ffmpeg: ToolVersion },
    SystemReport(Seq<Finding>),
    Power(PowerState),
    Perf,
}

impl View for Event {
    type V = News;

    open spec fn view(&self) -> News {
        match *self {
            Event::Info(info) => News::Info(info@),
            Event::Thumbnail { valid } => News::Thumbnail { valid },
            Event::Stage(stage) => News::Stage(stage@),
            Event::Progress(p) => News::Progress(p),
            Event::Log(line) => News::Log(line@),
            Event::Done { id, file } => News::Done { id, file: file@ },
            Event::Failed { id, message } => News::Failed { id, message: message@ },
            Event::Ready => News::Ready,
            Event::Warning(t) => News::Warning(t@),
            Event::Notice(t) => News::Notice(t@),
            Event::Tags(list) => News::Tags(tag::texts(list@)),
            Event::Cleaned(freed) => News::Cleaned(freed),
            Event::Versions { ytdlp, ffmpeg } => News::Versions { ytdlp, ffmpeg },
            Event::SystemReport(r) => News::SystemReport(r@),
            Event::Power(p) => News::Power(p),
            Event::Perf => News::Perf,
        }
    }
}

/// What a list of reports says.
pub open spec fn news(events: Seq<Event>) -> Seq<News> {
    events.map_values(|e: Event| e@)
}

/// A report says what it brings.
pub proof fn news_say_what_a_report_brings(e: Event)
    ensures
        e matches Event::Info(info) ==> e@ == News::Info(info@),
        e matches Event::Thumbnail { valid } ==> e@ == (News::Thumbnail { valid }),
        e matches Event::Stage(words) ==> e@ == News::Stage(words@),
        e matches Event::Progress(p) ==> e@ == News::Progress(p),
        e matches Event::Log(words) ==> e@ == News::Log(words@),
        e matches Event::Done { id, file } ==> e@ == (News::Done { id, file: file@ }),
        e matches Event::Failed { id, message } ==> e@ == (News::Failed { id, message: message@ }),
        e is Ready ==> e@ == News::Ready,
        e matches Event::Warning(words) ==> e@ == News::Warning(words@),
        e matches Event::Notice(words) ==> e@ == News::Notice(words@),
        e matches Event::Tags(list) ==> e@ == News::Tags(tag::texts(list@)),
        e matches Event::Cleaned(freed) ==> e@ == News::Cleaned(freed),
        e matches Event::SystemReport(r) ==> e@ == News::SystemReport(r@),
        e matches Event::Power(p) ==> e@ == News::Power(p),
{
}

/// A list of reports says what each of them says, in their order.
pub proof fn news_come_in_order(list: Seq<Event>)
    ensures
        news(list).len() == list.len(),
        forall|i: int| 0 <= i < list.len() ==> news(list)[i] == (#[trigger] list[i])@,
{
}

} // verus!
