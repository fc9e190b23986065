//! The queue of downloads: one after the other, from the top down.
use crate::model;
use crate::model::{DownloadId, Facts, Format, MediaInfo, Request, Wish};
use crate::text;
use crate::tone::Tone;
use vstd::prelude::*;

verus! {

/// How many links the queue holds.
pub const QUEUE_LIMIT: usize = 50;

/// What becomes of a link.
#[derive(Debug, PartialEq, Eq)]
pub enum QueueStatus {
    /// It waits for its turn.
    Waiting,
    /// It is being downloaded.
    Running,
    Done,
    /// It failed for this reason.
    Failed(String),
    /// The user stopped it.
    Cancelled,
}

/// What a [`QueueStatus`] says.
pub enum Fate {
    Waiting,
    Running,
    Done,
    Failed(Seq<char>),
    Cancelled,
}

impl Fate {
    /// Whether a link has had its turn, whatever came of it.
    pub open spec fn finished(self) -> bool {
        self is Done || self is Failed || self is Cancelled
    }

    /// The word that is shown.
    pub open spec fn label(self) -> Seq<char> {
        match self {
            Fate::Waiting => "Ожидает"@,
            Fate::Running => "Качается"@,
            Fate::Done => "Готово"@,
            Fate::Failed(_) => "Ошибка"@,
            Fate::Cancelled => "Снято"@,
        }
    }

    /// The colour of the state; the word always stands beside it.
    pub open spec fn tone(self) -> Tone {
        match self {
            Fate::Waiting => Tone::Muted,
            Fate::Running => Tone::Accent,
            Fate::Done => Tone::Success,
            Fate::Failed(_) => Tone::Error,
            Fate::Cancelled => Tone::Secondary,
        }
    }

    /// The reason of a failure in one line: its words with one space between each two.
    pub open spec fn error_line(self) -> Seq<char> {
        match self {
            Fate::Failed(why) => text::flattened(why),
            _ => Seq::empty(),
        }
    }
}

impl View for QueueStatus {
    type V = Fate;

    open spec fn view(&self) -> Fate {
        match *self {
            QueueStatus::Waiting => Fate::Waiting,
            QueueStatus::Running => Fate::Running,
            QueueStatus::Done => Fate::Done,
            QueueStatus::Failed(why) => Fate::Failed(why@),
            QueueStatus::Cancelled => Fate::Cancelled,
        }
    }
}

impl QueueStatus {
    pub fn finished(&self) -> (r: bool)
        ensures
            r == self@.finished(),
    {
        match self {
            QueueStatus::Done | QueueStatus::Failed(_) | QueueStatus::Cancelled => true,
            QueueStatus::Waiting | QueueStatus::Running => false,
        }
    }

    pub fn label(&self) -> (r: &'static str)
        ensures
            r@ == self@.label(),
    {
        match self {
            QueueStatus::Waiting => "Ожидает",
            QueueStatus::Running => "Качается",
            QueueStatus::Done => "Готово",
            QueueStatus::Failed(_) => "Ошибка",
            QueueStatus::Cancelled => "Снято",
        }
    }

    pub fn color(&self) -> (r: Tone)
        ensures
            r == self@.tone(),
    {
        match self {
            QueueStatus::Waiting => Tone::Muted,
            QueueStatus::Running => Tone::Accent,
            QueueStatus::Done => Tone::Success,
            QueueStatus::Failed(_) => Tone::Error,
            QueueStatus::Cancelled => Tone::Secondary,
        }
    }

    pub fn is_waiting(&self) -> (r: bool)
        ensures
            r == (self@ is Waiting),
    {
        match self {
            QueueStatus::Waiting => true,
            _ => false,
        }
    }

    pub fn is_running(&self) -> (r: bool)
        ensures
            r == (self@ is Running),
    {
        match self {
            QueueStatus::Running => true,
            _ => false,
        }
    }
}

/// A link in the queue. What was asked for and where to is kept as it was at that moment.
#[derive(Debug)]
pub struct QueueItem {
    pub id: DownloadId,
    pub request: Request,
    pub out_dir: String,
    /// The title, or the link while no title is known.
    pub title: String,
    /// What is being done, as what, how good.
    pub detail: String,
    /// The reason of a failure in one line; empty where nothing failed.
    pub error_line: String,
    pub status: QueueStatus,
    /// What the site told of the link before it was queued.
    pub known: Option<MediaInfo>,
}

/// What a [`QueueItem`] says.
#[verifier::ext_equal]
pub struct Row {
    pub id: DownloadId,
    pub request: Wish,
    pub out_dir: Seq<char>,
    pub title: Seq<char>,
    pub status: Fate,
    pub known: Option<Facts>,
}

/// The second line of a row.
pub open spec fn detail(status: Fate, request: Wish) -> Seq<char> {
    status.label() + " · "@ + request.format.short_name() + " · "@ + request.quality.name(
        request.format,
    )
}

impl View for QueueItem {
    type V = Row;

    open spec fn view(&self) -> Row {
        Row {
            id: self.id,
            request: self.request@,
            out_dir: self.out_dir@,
            title: self.title@,
            status: self.status@,
            known: model::facts(self.known),
        }
    }
}

impl QueueItem {
    /// Whether the lines that are shown tell the state.
    pub open spec fn lines_fit(&self) -> bool {
        &&& self.detail@ == detail(self.status@, self.request@)
        &&& self.error_line@ == self.status@.error_line()
    }

    /// Puts the lines together anew.
    pub fn rebuild_strings(&mut self)
        ensures
            final(self)@ == old(self)@,
            final(self).lines_fit(),
    {
        let format: Format = self.request.format;
        let mut line = self.status.label().to_owned();
        line.append(" · ");
        line.append(format.short());
        line.append(" · ");
        line.append(self.request.quality.label_with_unit(format));
        self.detail = line;
        self.error_line = match &self.status {
            QueueStatus::Failed(why) => text::flatten(why.as_str()),
            _ => String::new(),
        };
        assert(self.error_line@ =~= self.status@.error_line());
    }
}

/// What the items of a queue say.
pub open spec fn rows(items: Seq<QueueItem>) -> Seq<Row> {
    items.map_values(|i: QueueItem| i@)
}

/// The first of the rows `i..` that has had its turn.
pub open spec fn first_finished(rows: Seq<Row>, i: int) -> Option<int>
    decreases rows.len() - i,
{
    if i < 0 || i >= rows.len() {
        None
    } else if rows[i].status.finished() {
        Some(i)
    } else {
        first_finished(rows, i + 1)
    }
}

/// The first of the rows `i..` with a number.
pub open spec fn first_with(rows: Seq<Row>, id: DownloadId, i: int) -> Option<int>
    decreases rows.len() - i,
{
    if i < 0 || i >= rows.len() {
        None
    } else if rows[i].id == id {
        Some(i)
    } else {
        first_with(rows, id, i + 1)
    }
}

/// The first of the rows `i..` that waits.
pub open spec fn first_waiting(rows: Seq<Row>, i: int) -> Option<int>
    decreases rows.len() - i,
{
    if i < 0 || i >= rows.len() {
        None
    } else if rows[i].status is Waiting {
        Some(i)
    } else {
        first_waiting(rows, i + 1)
    }
}

/// The first of the rows `i..` that is being downloaded.
pub open spec fn first_running(rows: Seq<Row>, i: int) -> Option<int>
    decreases rows.len() - i,
{
    if i < 0 || i >= rows.len() {
        None
    } else if rows[i].status is Running {
        Some(i)
    } else {
        first_running(rows, i + 1)
    }
}

/// The rows once room was made for one more: the oldest that has had its turn leaves where
/// the queue is full. None where there is no such row.
pub open spec fn with_room(rows: Seq<Row>) -> Option<Seq<Row>> {
    if rows.len() < QUEUE_LIMIT {
        Some(rows)
    } else {
        match first_finished(rows, 0) {
            Some(i) => Some(rows.remove(i)),
            None => None,
        }
    }
}

/// The number that follows: zero is left out.
pub open spec fn number_after(id: DownloadId) -> DownloadId {
    if id == u32::MAX {
        1
    } else {
        (id + 1) as u32
    }
}

/// A row for a new link.
pub open spec fn new_row(
    id: DownloadId,
    request: Wish,
    out_dir: Seq<char>,
    known: Option<Facts>,
) -> Row {
    let title = match known {
        Some(f) => match f.title {
            Some(t) => t,
            None => request.url,
        },
        None => request.url,
    };
    Row { id, request, out_dir, title, status: Fate::Waiting, known }
}

/// The rows with another state for the one with a number.
pub open spec fn with_status(rows: Seq<Row>, id: DownloadId, status: Fate) -> Seq<Row> {
    match first_with(rows, id, 0) {
        Some(i) => rows.update(i, Row { status, ..rows[i] }),
        None => rows,
    }
}

/// The rows with another title for the one with a number.
pub open spec fn with_title(rows: Seq<Row>, id: DownloadId, title: Seq<char>) -> Seq<Row> {
    match first_with(rows, id, 0) {
        Some(i) => rows.update(i, Row { title, ..rows[i] }),
        None => rows,
    }
}

/// The rows that stay when those with a number, or all for none, are taken out. The one
/// that is being downloaded stays in any case.
pub open spec fn without(rows: Seq<Row>, id: Option<DownloadId>) -> Seq<Row>
    decreases rows.len(),
{
    if rows.len() == 0 {
        rows
    } else {
        let rest = without(rows.drop_last(), id);
        if stays(rows.last(), id) {
            rest.push(rows.last())
        } else {
            rest
        }
    }
}

pub open spec fn stays(row: Row, id: Option<DownloadId>) -> bool {
    row.status is Running || (id matches Some(n) && row.id != n)
}

/// The states by name alone.
#[derive(Debug, Clone, Copy, PartialEq, Eq, Structural)]
pub enum Kind {
    Running,
    Waiting,
    Done,
    Failed,
    Cancelled,
}

pub open spec fn kind_of(status: Fate) -> Kind {
    match status {
        Fate::Running => Kind::Running,
        Fate::Waiting => Kind::Waiting,
        Fate::Done => Kind::Done,
        Fate::Failed(_) => Kind::Failed,
        Fate::Cancelled => Kind::Cancelled,
    }
}

/// How many rows are in a state.
pub open spec fn count(rows: Seq<Row>, kind: Kind) -> nat
    decreases rows.len(),
{
    if rows.len() == 0 {
        0
    } else {
        count(rows.drop_last(), kind) + (if kind_of(rows.last().status) == kind {
            1nat
        } else {
            0
        })
    }
}

/// A summary with one more count; a count of zero is left out.
pub open spec fn with_count(line: Seq<char>, name: Seq<char>, n: nat) -> Seq<char> {
    if n == 0 {
        line
    } else if line.len() == 0 {
        line + name + ": "@ + text::decimal(n)
    } else {
        line + " · "@ + name + ": "@ + text::decimal(n)
    }
}

/// The summary of a queue: how many rows are in which state.
pub open spec fn summary(rows: Seq<Row>) -> Seq<char> {
    let running = with_count(Seq::empty(), "Идёт"@, count(rows, Kind::Running));
    let waiting = with_count(running, "В очереди"@, count(rows, Kind::Waiting));
    let done = with_count(waiting, "Готово"@, count(rows, Kind::Done));
    let failed = with_count(done, "Ошибок"@, count(rows, Kind::Failed));
    with_count(failed, "Снято"@, count(rows, Kind::Cancelled))
}

/// Whether no link can be added: there is no room, and none can be made.
pub open spec fn is_full(rows: Seq<Row>) -> bool {
    rows.len() >= QUEUE_LIMIT && forall|i: int|
        0 <= i < rows.len() ==> !(#[trigger] rows[i]).status.finished()
}

/// The downloads of this run, in the order in which they are made.
#[derive(Debug)]
pub struct Queue {
    pub items: Vec<QueueItem>,
    /// The number of the next download.
    pub next_id: DownloadId,
    /// How many are in which state.
    pub summary: String,
    /// Whether no link can be added.
    pub full: bool,
}

/// What a [`Queue`] holds.
#[verifier::ext_equal]
pub struct Line {
    pub rows: Seq<Row>,
    pub next_id: DownloadId,
}

impl View for Queue {
    type V = Line;

    open spec fn view(&self) -> Line {
        Line { rows: rows(self.items@), next_id: self.next_id }
    }
}

impl Queue {
    /// Whether the summary tells what the queue holds.
    pub open spec fn summary_fits(&self) -> bool {
        &&& self.summary@ == summary(self@.rows)
        &&& self.full == is_full(self@.rows)
    }

    /// Whether all that is shown tells what the queue holds.
    pub open spec fn lines_fit(&self) -> bool {
        &&& self.summary_fits()
        &&& forall|i: int| 0 <= i < self.items@.len() ==> (#[trigger] self.items@[i]).lines_fit()
    }

    pub fn new() -> (r: Queue)
        ensures
            r@ == (Line { rows: Seq::<Row>::empty(), next_id: 1 }),
            r.lines_fit(),
    {
        let items: Vec<QueueItem> = Vec::new();
        assert(rows(items@) =~= Seq::empty());
        Queue { items, next_id: 1, summary: String::new(), full: false }
    }

    /// Makes room for one more link; tells whether there is any.
    pub fn make_room(&mut self) -> (r: bool)
        ensures
            r == (with_room(old(self)@.rows) is Some),
            r ==> final(self)@ == (Line {
                rows: with_room(old(self)@.rows)->0,
                next_id: old(self)@.next_id,
            }),
            !r ==> *final(self) == *old(self),
            final(self).summary == old(self).summary,
            final(self).full == old(self).full,
            forall|i: int|
                0 <= i < final(self).items@.len() ==> old(self).items@.contains(
                    #[trigger] final(self).items@[i],
                ),
    {
        if self.items.len() < QUEUE_LIMIT {
            return true;
        }
        let ghost all = rows(self.items@);
        let mut i: usize = 0;
        while i < self.items.len()
            invariant
                i <= self.items@.len(),
                self.items@.len() >= QUEUE_LIMIT,
                *self == *old(self),
                all == rows(self.items@),
                first_finished(all, 0) == first_finished(all, i as int),
            decreases self.items@.len() - i,
        {
            assert(all[i as int] == self.items@[i as int]@);
            if self.items[i].status.finished() {
                let ghost before = self.items@;
                let gone = self.items.remove(i);
                assert(rows(self.items@) =~= all.remove(i as int));
                assert forall|k: int| 0 <= k < self.items@.len() implies before.contains(
                    #[trigger] self.items@[k],
                ) by {
                    if k < i {
                        assert(before[k] == self.items@[k]);
                    } else {
                        assert(before[k + 1] == self.items@[k]);
                    }
                }
                return true;
            }
            i += 1;
        }
        false
    }

    /// Puts a link at the end of the queue and gives its number; none where there is no room.
    pub fn push(&mut self, request: Request, out_dir: String, known: Option<MediaInfo>) -> (r: Option<
        DownloadId,
    >)
        ensures
            r == (if with_room(old(self)@.rows) is Some {
                Some(old(self)@.next_id)
            } else {
                None
            }),
            r is Some ==> final(self)@ == (Line {
                rows: with_room(old(self)@.rows)->0.push(
                    new_row(old(self)@.next_id, request@, out_dir@, model::facts(known)),
                ),
                next_id: number_after(old(self)@.next_id),
            }),
            r is Some ==> final(self).summary_fits(),
            r is None ==> *final(self) == *old(self),
            old(self).lines_fit() ==> final(self).lines_fit(),
    {
        if !self.make_room() {
            return None;
        }
        let ghost fitting = self.items@;
        let id = self.next_id;
        self.next_id = if id == u32::MAX {
            1
        } else {
            id + 1
        };
        let title = match &known {
            Some(info) => match &info.title {
                Some(t) => t.clone(),
                None => request.url.clone(),
            },
            None => request.url.clone(),
        };
        let mut item = QueueItem {
            id,
            request,
            out_dir,
            title,
            detail: String::new(),
            error_line: String::new(),
            status: QueueStatus::Waiting,
            known,
        };
        item.rebuild_strings();
        let ghost before = rows(self.items@);
        self.items.push(item);
        assert(rows(self.items@) =~= before.push(item@));
        self.rebuild_summary();
        proof {
            if old(self).lines_fit() {
                assert forall|i: int| 0 <= i < self.items@.len() implies (
                #[trigger] self.items@[i]).lines_fit() by {
                    if i < fitting.len() {
                        assert(old(self).items@.contains(fitting[i]));
                    }
                }
            }
        }
        Some(id)
    }

    /// What is to be downloaded next: the number, what is asked for, where to, and what is
    /// known already.
    pub fn next_waiting(&self) -> (r: Option<(DownloadId, Request, String, Option<MediaInfo>)>)
        ensures
            r is Some <==> first_waiting(self@.rows, 0) is Some,
            r matches Some((id, request, out_dir, known)) ==> {
                let row = self@.rows[first_waiting(self@.rows, 0)->0];
                &&& id == row.id
                &&& request@ == row.request
                &&& out_dir@ == row.out_dir
                &&& model::facts(known) == row.known
            },
    {
        let ghost all = self@.rows;
        let mut i: usize = 0;
        while i < self.items.len()
            invariant
                i <= self.items@.len(),
                all == rows(self.items@),
                first_waiting(all, 0) == first_waiting(all, i as int),
            decreases self.items@.len() - i,
        {
            let item = &self.items[i];
            assert(all[i as int] == item@);
            if item.status.is_waiting() {
                let known: Option<MediaInfo> = match &item.known {
                    Some(info) => Some(info.clone()),
                    None => None,
                };
                return Some((item.id, item.request.clone(), item.out_dir.clone(), known));
            }
            i += 1;
        }
        None
    }

    pub fn has_waiting(&self) -> (r: bool)
        ensures
            r == (first_waiting(self@.rows, 0) is Some),
    {
        let ghost all = self@.rows;
        let mut i: usize = 0;
        while i < self.items.len()
            invariant
                i <= self.items@.len(),
                all == rows(self.items@),
                first_waiting(all, 0) == first_waiting(all, i as int),
            decreases self.items@.len() - i,
        {
            assert(all[i as int] == self.items@[i as int]@);
            if self.items[i].status.is_waiting() {
                return true;
            }
            i += 1;
        }
        false
    }

    fn running_index(&self) -> (r: Option<usize>)
        ensures
            r is Some <==> first_running(self@.rows, 0) is Some,
            r matches Some(i) ==> first_running(self@.rows, 0) == Some(i as int) && i
                < self.items@.len(),
    {
        let ghost all = self@.rows;
        let mut i: usize = 0;
        while i < self.items.len()
            invariant
                i <= self.items@.len(),
                all == rows(self.items@),
                first_running(all, 0) == first_running(all, i as int),
            decreases self.items@.len() - i,
        {
            assert(all[i as int] == self.items@[i as int]@);
            if self.items[i].status.is_running() {
                return Some(i);
            }
            i += 1;
        }
        None
    }

    /// The number of the download that is being made.
    pub fn running_id(&self) -> (r: Option<DownloadId>)
        ensures
            r == (match first_running(self@.rows, 0) {
                Some(i) => Some(self@.rows[i].id),
                None => None,
            }),
    {
        match self.running_index() {
            Some(i) => Some(self.items[i].id),
            None => None,
        }
    }

    /// What is asked for by the download that is being made.
    pub fn running_request(&self) -> (r: Option<&Request>)
        ensures
            r is Some <==> first_running(self@.rows, 0) is Some,
            r matches Some(request) ==> request@ == self@.rows[first_running(
                self@.rows,
                0,
            )->0].request,
    {
        match self.running_index() {
            Some(i) => Some(&self.items[i].request),
            None => None,
        }
    }

    /// Whether the download with this number is being made. What a stopped download still
    /// reports concerns no one.
    pub fn is_running(&self, id: DownloadId) -> (r: bool)
        ensures
            r == runs(self@.rows, id),
    {
        let ghost all = self@.rows;
        let mut i: usize = 0;
        while i < self.items.len()
            invariant
                i <= self.items@.len(),
                all == rows(self.items@),
                forall|k: int|
                    0 <= k < i ==> !((#[trigger] all[k]).id == id && all[k].status is Running),
            decreases self.items@.len() - i,
        {
            assert(all[i as int] == self.items@[i as int]@);
            if self.items[i].id == id && self.items[i].status.is_running() {
                return true;
            }
            i += 1;
        }
        false
    }

    fn index_of(&self, id: DownloadId) -> (r: Option<usize>)
        ensures
            r is Some <==> first_with(self@.rows, id, 0) is Some,
            r matches Some(i) ==> first_with(self@.rows, id, 0) == Some(i as int) && i
                < self.items@.len(),
    {
        let ghost all = self@.rows;
        let mut i: usize = 0;
        while i < self.items.len()
            invariant
                i <= self.items@.len(),
                all == rows(self.items@),
                first_with(all, id, 0) == first_with(all, id, i as int),
            decreases self.items@.len() - i,
        {
            assert(all[i as int] == self.items@[i as int]@);
            if self.items[i].id == id {
                return Some(i);
            }
            i += 1;
        }
        None
    }

    pub fn set_status(&mut self, id: DownloadId, status: QueueStatus)
        ensures
            final(self)@ == (Line {
                rows: with_status(old(self)@.rows, id, status@),
                next_id: old(self)@.next_id,
            }),
            final(self).summary_fits(),
            old(self).lines_fit() ==> final(self).lines_fit(),
    {
        let ghost all = self@.rows;
        let ghost before = self.items@;
        if let Some(i) = self.index_of(id) {
            let mut item = self.items.remove(i);
            item.status = status;
            item.rebuild_strings();
            self.items.insert(i, item);
            assert(all[i as int] == before[i as int]@);
            assert(rows(self.items@) =~= with_status(all, id, status@));
            assert forall|k: int| 0 <= k < self.items@.len() && k != i implies (
            #[trigger] self.items@[k]) == before[k] by {}
        }
        let ghost changed = self.items@;
        self.rebuild_summary();
    }

    /// Puts a title in the place of the link.
    pub fn set_title(&mut self, id: DownloadId, title: &str)
        ensures
            final(self)@ == (Line {
                rows: with_title(old(self)@.rows, id, title@),
                next_id: old(self)@.next_id,
            }),
            final(self).summary == old(self).summary,
            final(self).full == old(self).full,
            old(self).lines_fit() ==> final(self).lines_fit(),
    {
        let ghost all = self@.rows;
        let ghost before = self.items@;
        if let Some(i) = self.index_of(id) {
            let mut item = self.items.remove(i);
            item.title = title.to_owned();
            self.items.insert(i, item);
            assert(all[i as int] == before[i as int]@);
            assert(rows(self.items@) =~= with_title(all, id, title@));
            assert forall|k: int| 0 <= k < self.items@.len() && k != i implies (
            #[trigger] self.items@[k]) == before[k] by {}
            proof {
                lemma_title_keeps_counts(all, id, title@);
            }
        }
    }

    fn take_out(&mut self, id: Option<DownloadId>)
        ensures
            final(self)@ == (Line {
                rows: without(old(self)@.rows, id),
                next_id: old(self)@.next_id,
            }),
            forall|i: int|
                0 <= i < final(self).items@.len() ==> old(self).items@.contains(
                    #[trigger] final(self).items@[i],
                ),
    {
        let ghost all = self@.rows;
        let ghost before = self.items@;
        let ghost mut k: int = 0;
        let mut i: usize = 0;
        assert(all.take(0) =~= Seq::empty());
        while i < self.items.len()
            invariant
                i <= self.items@.len(),
                0 <= k <= before.len(),
                before.len() - k == self.items@.len() - i,
                all == rows(before),
                self.next_id == old(self).next_id,
                before == old(self).items@,
                rows(self.items@.take(i as int)) == without(all.take(k), id),
                forall|j: int|
                    i <= j < self.items@.len() ==> (#[trigger] self.items@[j]) == before[j - i + k],
                forall|j: int|
                    0 <= j < i ==> before.contains(#[trigger] self.items@[j]),
            decreases self.items@.len() - i,
        {
            proof {
                assert(self.items@[i as int] == before[k]);
                assert(all[k] == before[k]@);
                assert(all.take(k + 1).drop_last() =~= all.take(k));
                assert(all.take(k + 1).last() == all[k]);
            }
            let stay: bool = self.items[i].status.is_running() || match id {
                Some(n) => self.items[i].id != n,
                None => false,
            };
            assert(stay == stays(all[k], id));
            let ghost items = self.items@;
            if stay {
                assert(rows(items.take(i + 1)) =~= rows(items.take(i as int)).push(all[k]));
                i += 1;
            } else {
                let gone = self.items.remove(i);
                assert(self.items@.take(i as int) =~= items.take(i as int));
                assert forall|j: int| i <= j < self.items@.len() implies (
                #[trigger] self.items@[j]) == before[j - i + k + 1] by {
                    assert(self.items@[j] == items[j + 1]);
                }
                assert forall|j: int| 0 <= j < i implies before.contains(
                    #[trigger] self.items@[j],
                ) by {
                    assert(self.items@[j] == items[j]);
                }
            }
            proof {
                k = k + 1;
            }
        }
        assert(self.items@.take(i as int) =~= self.items@);
        assert(all.take(k) =~= all);
    }

    /// Takes a row out of the list, unless it is being downloaded.
    pub fn remove(&mut self, id: DownloadId)
        ensures
            final(self)@ == (Line {
                rows: without(old(self)@.rows, Some(id)),
                next_id: old(self)@.next_id,
            }),
            final(self).summary_fits(),
            old(self).lines_fit() ==> final(self).lines_fit(),
    {
        self.take_out(Some(id));
        self.rebuild_summary();
    }

    /// Takes out all rows but the one that is being downloaded.
    pub fn clear(&mut self)
        ensures
            final(self)@ == (Line {
                rows: without(old(self)@.rows, None),
                next_id: old(self)@.next_id,
            }),
            final(self).summary_fits(),
            old(self).lines_fit() ==> final(self).lines_fit(),
    {
        self.take_out(None);
        self.rebuild_summary();
    }

    /// Puts the summary together anew.
    pub fn rebuild_summary(&mut self)
        ensures
            final(self).items == old(self).items,
            final(self).next_id == old(self).next_id,
            final(self).summary_fits(),
    {
        let ghost all = self@.rows;
        let mut running: u64 = 0;
        let mut waiting: u64 = 0;
        let mut done: u64 = 0;
        let mut failed: u64 = 0;
        let mut cancelled: u64 = 0;
        let mut i: usize = 0;
        assert(all.take(0) =~= Seq::empty());
        while i < self.items.len()
            invariant
                i <= self.items@.len(),
                *self == *old(self),
                all == rows(self.items@),
                running == count(all.take(i as int), Kind::Running),
                waiting == count(all.take(i as int), Kind::Waiting),
                done == count(all.take(i as int), Kind::Done),
                failed == count(all.take(i as int), Kind::Failed),
                cancelled == count(all.take(i as int), Kind::Cancelled),
                running + waiting + done + failed + cancelled == i,
                done + failed + cancelled == 0 <==> forall|k: int|
                    0 <= k < i ==> !(#[trigger] all[k]).status.finished(),
            decreases self.items@.len() - i,
        {
            proof {
                assert(all[i as int] == self.items@[i as int]@);
                assert(all.take(i + 1).drop_last() =~= all.take(i as int));
                assert(all.take(i + 1).last() == all[i as int]);
            }
            match &self.items[i].status {
                QueueStatus::Running => running += 1,
                QueueStatus::Waiting => waiting += 1,
                QueueStatus::Done => done += 1,
                QueueStatus::Failed(_) => failed += 1,
                QueueStatus::Cancelled => cancelled += 1,
            }
            i += 1;
        }
        assert(all.take(i as int) =~= all);
        self.full = self.items.len() >= QUEUE_LIMIT && done + failed + cancelled == 0;
        let mut line = String::new();
        add_count(&mut line, "Идёт", running);
        add_count(&mut line, "В очереди", waiting);
        add_count(&mut line, "Готово", done);
        add_count(&mut line, "Ошибок", failed);
        add_count(&mut line, "Снято", cancelled);
        self.summary = line;
    }
}

/// Whether the download with a number is being made.
pub open spec fn runs(rows: Seq<Row>, id: DownloadId) -> bool {
    exists|i: int| 0 <= i < rows.len() && (#[trigger] rows[i]).id == id && rows[i].status is Running
}

fn add_count(line: &mut String, name: &str, n: u64)
    ensures
        final(line)@ == with_count(old(line)@, name@, n as nat),
{
    if n == 0 {
        return;
    }
    if !line.as_str().is_empty() {
        line.append(" · ");
    }
    line.append(name);
    line.append(": ");
    line.append(text::decimal_text(n).as_str());
}

/// The row found is the first with the number.
pub proof fn lemma_first_with(rows: Seq<Row>, id: DownloadId, i: int)
    requires
        0 <= i,
    ensures
        match first_with(rows, id, i) {
            Some(k) => {
                &&& i <= k < rows.len()
                &&& rows[k].id == id
                &&& forall|j: int| i <= j < k ==> !((#[trigger] rows[j]).id == id)
            },
            None => forall|j: int| i <= j < rows.len() ==> !((#[trigger] rows[j]).id == id),
        },
    decreases rows.len() - i,
{
    if i < rows.len() && !(rows[i].id == id) {
        lemma_first_with(rows, id, i + 1);
    }
}

/// The row found is the first that has had its turn.
pub proof fn lemma_first_finished(rows: Seq<Row>, i: int)
    requires
        0 <= i,
    ensures
        match first_finished(rows, i) {
            Some(k) => {
                &&& i <= k < rows.len()
                &&& rows[k].status.finished()
                &&& forall|j: int| i <= j < k ==> !((#[trigger] rows[j]).status.finished())
            },
            None => forall|j: int| i <= j < rows.len() ==> !((#[trigger] rows[j]).status.finished()),
        },
    decreases rows.len() - i,
{
    if i < rows.len() && !(rows[i].status.finished()) {
        lemma_first_finished(rows, i + 1);
    }
}

/// The row found is the first that waits.
pub proof fn lemma_first_waiting(rows: Seq<Row>, i: int)
    requires
        0 <= i,
    ensures
        match first_waiting(rows, i) {
            Some(k) => {
                &&& i <= k < rows.len()
                &&& rows[k].status is Waiting
                &&& forall|j: int| i <= j < k ==> !((#[trigger] rows[j]).status is Waiting)
            },
            None => forall|j: int| i <= j < rows.len() ==> !((#[trigger] rows[j]).status is Waiting),
        },
    decreases rows.len() - i,
{
    if i < rows.len() && !(rows[i].status is Waiting) {
        lemma_first_waiting(rows, i + 1);
    }
}

/// The row found is the first that is being downloaded.
pub proof fn lemma_first_running(rows: Seq<Row>, i: int)
    requires
        0 <= i,
    ensures
        match first_running(rows, i) {
            Some(k) => {
                &&& i <= k < rows.len()
                &&& rows[k].status is Running
                &&& forall|j: int| i <= j < k ==> !((#[trigger] rows[j]).status is Running)
            },
            None => forall|j: int| i <= j < rows.len() ==> !((#[trigger] rows[j]).status is Running),
        },
    decreases rows.len() - i,
{
    if i < rows.len() && !(rows[i].status is Running) {
        lemma_first_running(rows, i + 1);
    }
}

/// A title has no part in the counts.
proof fn lemma_title_keeps_counts(all: Seq<Row>, id: DownloadId, title: Seq<char>)
    ensures
        summary(with_title(all, id, title)) == summary(all),
        is_full(with_title(all, id, title)) == is_full(all),
{
    lemma_first_with(all, id, 0);
    let after = with_title(all, id, title);
    assert forall|kind: Kind| count(after, kind) == count(all, kind) by {
        lemma_same_states(all, after, kind);
    }
    assert(forall|i: int| 0 <= i < all.len() ==> (#[trigger] after[i]).status == all[i].status);
    assert(forall|i: int| 0 <= i < all.len() ==> (#[trigger] all[i]).status == after[i].status);
}

proof fn lemma_same_states(a: Seq<Row>, b: Seq<Row>, kind: Kind)
    requires
        a.len() == b.len(),
        forall|i: int| 0 <= i < a.len() ==> (#[trigger] a[i]).status == b[i].status,
    ensures
        count(a, kind) == count(b, kind),
    decreases a.len(),
{
    if a.len() > 0 {
        assert forall|i: int| 0 <= i < a.drop_last().len() implies (
        #[trigger] a.drop_last()[i]).status == b.drop_last()[i].status by {
            assert(a[i].status == b[i].status);
        }
        lemma_same_states(a.drop_last(), b.drop_last(), kind);
        assert(a.last().status == b.last().status);
    }
}

/// The queue never outgrows its limit: a new link is added only where there is room, and room
/// is made before.
pub proof fn queue_stays_bounded(rows: Seq<Row>, row: Row)
    requires
        rows.len() <= QUEUE_LIMIT,
        with_room(rows) is Some,
    ensures
        with_room(rows)->0.push(row).len() <= QUEUE_LIMIT,
{
    lemma_first_finished(rows, 0);
}

/// Room is made only at the cost of a row that has had its turn: every row that waits or is
/// being downloaded stays.
pub proof fn only_finished_rows_give_way(rows: Seq<Row>, i: int)
    requires
        with_room(rows) is Some,
        0 <= i < rows.len(),
        !rows[i].status.finished(),
    ensures
        with_room(rows)->0.contains(rows[i]),
{
    lemma_first_finished(rows, 0);
    let after = with_room(rows)->0;
    match first_finished(rows, 0) {
        Some(k) if rows.len() >= QUEUE_LIMIT => {
            if i < k {
                assert(after[i] == rows[i]);
            } else {
                assert(after[i - 1] == rows[i]);
            }
        },
        _ => {
            assert(after[i] == rows[i]);
        },
    }
}

/// The queue is full exactly where a new link is refused.
pub proof fn full_queue_refuses(rows: Seq<Row>)
    ensures
        is_full(rows) <==> with_room(rows) is None,
{
    lemma_first_finished(rows, 0);
}

/// Zero, which stands for no download, is never handed out.
pub proof fn numbers_skip_the_reserved_one(id: DownloadId)
    requires
        id != model::NO_DOWNLOAD,
    ensures
        number_after(id) != model::NO_DOWNLOAD,
{
}

/// Whether every number was handed out once, before the next one.
pub open spec fn numbered(line: Line) -> bool {
    &&& forall|i: int| 0 <= i < line.rows.len() ==> (#[trigger] line.rows[i]).id < line.next_id
    &&& distinct(line.rows)
}

/// Whether no two rows have one number.
pub open spec fn distinct(rows: Seq<Row>) -> bool {
    forall|i: int, j: int|
        0 <= i < j < rows.len() ==> (#[trigger] rows[i]).id != (#[trigger] rows[j]).id
}

/// No number is handed out twice, until the numbers run out.
pub proof fn numbers_are_never_reused(
    line: Line,
    request: Wish,
    out_dir: Seq<char>,
    known: Option<Facts>,
)
    requires
        numbered(line),
        line.next_id < u32::MAX,
        with_room(line.rows) is Some,
    ensures
        numbered(
            Line {
                rows: with_room(line.rows)->0.push(
                    new_row(line.next_id, request, out_dir, known),
                ),
                next_id: number_after(line.next_id),
            },
        ),
{
    lemma_first_finished(line.rows, 0);
    let room = with_room(line.rows)->0;
    let after = room.push(new_row(line.next_id, request, out_dir, known));
    if line.rows.len() >= QUEUE_LIMIT {
        let k = first_finished(line.rows, 0)->0;
        assert(forall|i: int|
            0 <= i < room.len() ==> (#[trigger] room[i]) == line.rows[if i < k {
                i
            } else {
                i + 1
            }]);
    }
    assert(forall|i: int| 0 <= i < room.len() ==> (#[trigger] after[i]) == room[i]);
}

/// What is taken out of the list is never the download that is being made, and of the other
/// rows only those that were meant.
pub proof fn running_download_is_never_taken_out(rows: Seq<Row>, id: Option<DownloadId>, i: int)
    requires
        0 <= i < rows.len(),
    ensures
        stays(rows[i], id) ==> without(rows, id).contains(rows[i]),
    decreases rows.len(),
{
    let rest = without(rows.drop_last(), id);
    if i == rows.len() - 1 {
        if stays(rows[i], id) {
            assert(without(rows, id).last() == rows[i]);
        }
    } else {
        running_download_is_never_taken_out(rows.drop_last(), id, i);
        if stays(rows[i], id) {
            let k = choose|k: int| 0 <= k < rest.len() && rest[k] == rows[i];
            assert(without(rows, id)[k] == rows[i]);
        }
    }
}

/// What stays when rows are taken out stood there before, and was meant to stay.
pub proof fn taking_out_leaves_nothing_else(rows: Seq<Row>, id: Option<DownloadId>)
    ensures
        without(rows, id).len() <= rows.len(),
        forall|i: int|
            0 <= i < without(rows, id).len() ==> rows.contains(#[trigger] without(rows, id)[i])
                && stays(without(rows, id)[i], id),
    decreases rows.len(),
{
    if rows.len() > 0 {
        taking_out_leaves_nothing_else(rows.drop_last(), id);
        let rest = without(rows.drop_last(), id);
        assert forall|i: int| 0 <= i < without(rows, id).len() implies rows.contains(
            #[trigger] without(rows, id)[i],
        ) && stays(without(rows, id)[i], id) by {
            if i < rest.len() {
                assert(rest[i] == without(rows, id)[i]);
                let k = choose|k: int|
                    0 <= k < rows.drop_last().len() && rows.drop_last()[k] == rest[i];
                assert(rows[k] == rest[i]);
            } else {
                assert(rows[rows.len() - 1] == without(rows, id)[i]);
            }
        }
    }
}

/// Whether at most one download is being made.
pub open spec fn one_at_a_time(rows: Seq<Row>) -> bool {
    forall|i: int, j: int|
        0 <= i < rows.len() && 0 <= j < rows.len() && (#[trigger] rows[i]).status is Running && (
        #[trigger] rows[j]).status is Running ==> i == j
}

/// A row that does not run, put behind the others, changes nothing about which one runs: the
/// row that gives way to it is a finished one.
pub proof fn lemma_waiting_row_runs_nothing(rows: Seq<Row>, new: Row)
    requires
        one_at_a_time(rows),
        with_room(rows) is Some,
        !(new.status is Running),
    ensures
        one_at_a_time(with_room(rows)->0.push(new)),
        first_running(with_room(rows)->0.push(new), 0) is Some <==> first_running(rows, 0) is Some,
{
    let room = with_room(rows)->0;
    let after = room.push(new);
    lemma_first_finished(rows, 0);
    lemma_first_running(rows, 0);
    lemma_first_running(after, 0);
    let gone = if rows.len() < QUEUE_LIMIT {
        rows.len() as int
    } else {
        first_finished(rows, 0)->0
    };
    assert forall|j: int| 0 <= j < room.len() implies (#[trigger] after[j]) == rows[if j < gone {
        j
    } else {
        j + 1
    }] by {}
    if let Some(k) = first_running(rows, 0) {
        let moved = if k < gone {
            k
        } else {
            k - 1
        };
        assert(after[moved].status is Running);
    }
}

/// A download is started only where none is being made, so there is never a second one; and
/// no other change of state starts one.
pub proof fn downloads_are_made_one_at_a_time(rows: Seq<Row>, id: DownloadId, status: Fate)
    requires
        one_at_a_time(rows),
        status is Running ==> first_running(rows, 0) is None,
    ensures
        one_at_a_time(with_status(rows, id, status)),
{
    lemma_first_with(rows, id, 0);
    lemma_first_running(rows, 0);
    let after = with_status(rows, id, status);
    if let Some(k) = first_with(rows, id, 0) {
        assert(forall|i: int|
            0 <= i < rows.len() && i != k ==> (#[trigger] after[i]).status == rows[i].status);
    }
}

/// A download that is no longer being made is not taken for one that is: what it still
/// reports is recognised by its number, and no other download is touched.
pub proof fn late_report_concerns_no_one(
    rows: Seq<Row>,
    id: DownloadId,
    status: Fate,
    other: DownloadId,
)
    requires
        distinct(rows),
        status !is Running,
        other != id,
    ensures
        !runs(with_status(rows, id, status), id),
        runs(with_status(rows, id, status), other) == runs(rows, other),
        distinct(with_status(rows, id, status)),
{
    lemma_first_with(rows, id, 0);
    let after = with_status(rows, id, status);
    if let Some(k) = first_with(rows, id, 0) {
        assert(forall|i: int|
            0 <= i < rows.len() && i != k ==> (#[trigger] after[i]) == rows[i]);
        assert forall|i: int| 0 <= i < rows.len() implies (#[trigger] after[i]).id == rows[i].id
            && (after[i].id == id ==> i == k) by {}
        if runs(rows, other) {
            let i = choose|i: int|
                0 <= i < rows.len() && (#[trigger] rows[i]).id == other && rows[i].status is Running;
            assert(after[i] == rows[i]);
        }
    }
}

/// The next download is the topmost that waits, so the queue goes from the top down and never
/// hands out what has been started.
pub proof fn queue_goes_top_down(rows: Seq<Row>)
    ensures
        match first_waiting(rows, 0) {
            Some(k) => {
                &&& 0 <= k < rows.len() && rows[k].status is Waiting
                &&& forall|j: int| 0 <= j < k ==> !((#[trigger] rows[j]).status is Waiting)
            },
            None => forall|j: int|
                0 <= j < rows.len() ==> !((#[trigger] rows[j]).status is Waiting),
        },
{
    lemma_first_waiting(rows, 0);
}

/// States are told apart by their words: no two read the same, and none is blank.
pub proof fn states_read_differently(a: Fate, b: Fate)
    ensures
        a.label() == b.label() ==> {
            &&& a is Waiting <==> b is Waiting
            &&& a is Running <==> b is Running
            &&& a is Done <==> b is Done
            &&& a is Failed <==> b is Failed
            &&& a is Cancelled <==> b is Cancelled
        },
        a.label().len() > 0 && !text::is_space(a.label()[0]),
{
    reveal_strlit("Ожидает");
    reveal_strlit("Качается");
    reveal_strlit("Готово");
    reveal_strlit("Ошибка");
    reveal_strlit("Снято");
    assert("Ожидает"@[0] == 'О' && "Качается"@[0] == 'К' && "Готово"@[0] == 'Г' && "Ошибка"@[0]
        == 'О' && "Снято"@[0] == 'С');
    assert("Ожидает"@[1] == 'ж' && "Ошибка"@[1] == 'ш');
}

/// The states of a link are told apart by word and by colour, and only those that have had their
/// turn are finished.
pub proof fn states_have_their_words(why: Seq<char>)
    ensures
        Fate::Waiting.label() == "Ожидает"@ && Fate::Waiting.tone() == Tone::Muted
            && !Fate::Waiting.finished(),
        Fate::Running.label() == "Качается"@ && Fate::Running.tone() == Tone::Accent
            && !Fate::Running.finished(),
        Fate::Done.label() == "Готово"@ && Fate::Done.tone() == Tone::Success
            && Fate::Done.finished(),
        Fate::Failed(why).label() == "Ошибка"@ && Fate::Failed(why).tone() == Tone::Error
            && Fate::Failed(why).finished(),
        Fate::Cancelled.label() == "Снято"@ && Fate::Cancelled.tone() == Tone::Secondary
            && Fate::Cancelled.finished(),
        Fate::Failed(why).error_line() == text::flattened(why),
        Fate::Done.error_line().len() == 0 && Fate::Waiting.error_line().len() == 0,
{
}

/// What a row tells is what its item holds, its lines too.
pub proof fn row_tells_what_the_item_holds(i: QueueItem)
    ensures
        i@.id == i.id && i@.request == i.request@ && i@.out_dir == i.out_dir@ && i@.title
            == i.title@ && i@.known == model::facts(i.known),
        i.status is Waiting <==> i@.status is Waiting,
        i.status is Running <==> i@.status is Running,
        i.status is Done <==> i@.status is Done,
        i.status is Cancelled <==> i@.status is Cancelled,
        i.status matches QueueStatus::Failed(why) ==> i@.status == Fate::Failed(why@),
        i.lines_fit() ==> i.detail@ == i@.status.label() + " · "@ + i.request.format.short_name()
            + " · "@ + i.request.quality.name(i.request.format),
{
}

/// A link is queued as a row that waits, under the next number, with what was asked for and
/// where to; named by its title, or by the link while none is known.
pub proof fn new_row_waits(id: DownloadId, request: Wish, out_dir: Seq<char>, known: Option<Facts>)
    ensures
        ({
            let row = new_row(id, request, out_dir, known);
            &&& row.id == id && row.request == request && row.out_dir == out_dir && row.known
                == known
            &&& row.status is Waiting
            &&& known is Some && known->0.title is Some ==> row.title == known->0.title->0
            &&& known is None || known->0.title is None ==> row.title == request.url
        }),
{
}

/// Numbers go up by one, and begin again at one.
pub proof fn numbers_go_up(id: DownloadId)
    ensures
        id < u32::MAX ==> number_after(id) == id + 1,
        id == u32::MAX ==> number_after(id) == 1,
{
}

/// The rows of a state are counted: one more of that state is one more, one of another is none.
pub proof fn rows_are_counted(all: Seq<Row>, row: Row, kind: Kind)
    ensures
        count(Seq::empty(), kind) == 0,
        count(all.push(row), kind) == count(all, kind) + (if kind_of(row.status) == kind {
            1int
        } else {
            0
        }),
        kind_of(Fate::Waiting) == Kind::Waiting && kind_of(Fate::Running) == Kind::Running
            && kind_of(Fate::Done) == Kind::Done && kind_of(Fate::Cancelled) == Kind::Cancelled,
        row.status is Failed ==> kind_of(row.status) == Kind::Failed,
{
    assert(all.push(row).drop_last() =~= all);
}

/// The summary of a queue tells how many rows run, wait, are done, failed or were taken off, as
/// far as there are any.
pub proof fn summary_counts_the_rows(all: Seq<Row>)
    ensures
        ({
            let n = |kind: Kind| count(all, kind);
            &&& n(Kind::Running) > 0 && n(Kind::Waiting) == 0 && n(Kind::Done) == 0 && n(
                Kind::Failed,
            ) == 0 && n(Kind::Cancelled) == 0 ==> summary(all) == "Идёт: "@ + text::decimal(
                n(Kind::Running),
            )
            &&& n(Kind::Running) == 0 && n(Kind::Waiting) > 0 && n(Kind::Done) == 0 && n(
                Kind::Failed,
            ) == 0 && n(Kind::Cancelled) == 0 ==> summary(all) == "В очереди: "@ + text::decimal(
                n(Kind::Waiting),
            )
            &&& n(Kind::Running) == 0 && n(Kind::Waiting) == 0 && n(Kind::Done) > 0 && n(
                Kind::Failed,
            ) == 0 && n(Kind::Cancelled) == 0 ==> summary(all) == "Готово: "@ + text::decimal(
                n(Kind::Done),
            )
            &&& n(Kind::Running) == 0 && n(Kind::Waiting) == 0 && n(Kind::Done) == 0 && n(
                Kind::Failed,
            ) > 0 && n(Kind::Cancelled) == 0 ==> summary(all) == "Ошибок: "@ + text::decimal(
                n(Kind::Failed),
            )
            &&& n(Kind::Running) == 0 && n(Kind::Waiting) == 0 && n(Kind::Done) == 0 && n(
                Kind::Failed,
            ) == 0 && n(Kind::Cancelled) > 0 ==> summary(all) == "Снято: "@ + text::decimal(
                n(Kind::Cancelled),
            )
            &&& n(Kind::Running) == 0 && n(Kind::Waiting) == 0 && n(Kind::Done) == 0 && n(
                Kind::Failed,
            ) == 0 && n(Kind::Cancelled) == 0 ==> summary(all).len() == 0
        }),
{
    reveal_strlit("Идёт");
    reveal_strlit("В очереди");
    reveal_strlit("Готово");
    reveal_strlit("Ошибок");
    reveal_strlit("Снято");
    reveal_strlit(": ");
    reveal_strlit("Идёт: ");
    reveal_strlit("В очереди: ");
    reveal_strlit("Готово: ");
    reveal_strlit("Ошибок: ");
    reveal_strlit("Снято: ");
    let none = Seq::<char>::empty();
    assert("Идёт"@ + ": "@ =~= "Идёт: "@);
    assert("В очереди"@ + ": "@ =~= "В очереди: "@);
    assert("Готово"@ + ": "@ =~= "Готово: "@);
    assert("Ошибок"@ + ": "@ =~= "Ошибок: "@);
    assert("Снято"@ + ": "@ =~= "Снято: "@);
    assert(none + "Идёт"@ =~= "Идёт"@);
    assert(none + "В очереди"@ =~= "В очереди"@);
    assert(none + "Готово"@ =~= "Готово"@);
    assert(none + "Ошибок"@ =~= "Ошибок"@);
    assert(none + "Снято"@ =~= "Снято"@);
}

/// A summary is that of the states one behind the other: each that occurs by its name and its
/// count, with a dot between each two.
pub proof fn counts_stand_behind_one_another(line: Seq<char>, name: Seq<char>, n: nat)
    ensures
        n == 0 ==> with_count(line, name, n) == line,
        n > 0 && line.len() == 0 ==> with_count(line, name, n) == name + ": "@ + text::decimal(n),
        n > 0 && line.len() > 0 ==> with_count(line, name, n) == line + " · "@ + name + ": "@
            + text::decimal(n),
{
    if line.len() == 0 {
        assert(line + name =~= name);
    }
}

/// A queue is full where it holds fifty rows and none of them has had its turn.
pub proof fn queue_holds_fifty(all: Seq<Row>)
    ensures
        all.len() < 50 ==> !is_full(all) && with_room(all) == Some(all),
        all.len() >= 50 && (forall|i: int|
            0 <= i < all.len() ==> (#[trigger] all[i]).status is Waiting || all[i].status
                is Running) ==> is_full(all) && with_room(all) is None,
        all.len() >= 50 && (exists|i: int|
            0 <= i < all.len() && !((#[trigger] all[i]).status is Waiting) && !(all[i].status
                is Running)) ==> !is_full(all) && with_room(all) is Some,
{
    full_queue_refuses(all);
    if exists|i: int|
        0 <= i < all.len() && !((#[trigger] all[i]).status is Waiting) && !(all[i].status
            is Running) {
        let i = choose|i: int|
            0 <= i < all.len() && !((#[trigger] all[i]).status is Waiting) && !(all[i].status
                is Running);
        assert(all[i].status.finished());
    }
}

/// Where room is made, it is the first row that has had its turn that leaves; all others stay in
/// their order.
pub proof fn oldest_finished_row_leaves(all: Seq<Row>, k: int)
    requires
        all.len() >= 50,
        0 <= k < all.len(),
        all[k].status.finished(),
        forall|i: int| 0 <= i < k ==> !(#[trigger] all[i]).status.finished(),
    ensures
        with_room(all) == Some(all.take(k) + all.skip(k + 1)),
{
    lemma_first_finished(all, 0);
    let j = first_finished(all, 0)->0;
    assert(j == k);
    assert(all.remove(k) =~= all.take(k) + all.skip(k + 1));
}

/// The states stand in the summary in a fixed order: what runs, what waits, what is done, what
/// failed, what was taken off.
pub proof fn summary_has_its_order(all: Seq<Row>)
    requires
        count(all, Kind::Running) > 0,
        count(all, Kind::Waiting) > 0,
        count(all, Kind::Done) > 0,
        count(all, Kind::Failed) > 0,
        count(all, Kind::Cancelled) > 0,
    ensures
        summary(all) == "Идёт"@ + ": "@ + text::decimal(count(all, Kind::Running)) + " · "@
            + "В очереди"@ + ": "@ + text::decimal(count(all, Kind::Waiting)) + " · "@ + "Готово"@
            + ": "@ + text::decimal(count(all, Kind::Done)) + " · "@ + "Ошибок"@ + ": "@
            + text::decimal(count(all, Kind::Failed)) + " · "@ + "Снято"@ + ": "@ + text::decimal(
            count(all, Kind::Cancelled),
        ),
{
    reveal_strlit("Идёт");
    counts_stand_behind_one_another(Seq::empty(), "Идёт"@, count(all, Kind::Running));
    assert("Идёт"@.len() > 0);
}

/// A download runs where a row of its number does; setting a state or a title concerns the row of
/// that number and no other.
pub proof fn rows_go_by_their_numbers(all: Seq<Row>, id: DownloadId, k: int, status: Fate, t: Seq<char>)
    requires
        distinct(all),
        0 <= k < all.len(),
        all[k].id == id,
    ensures
        runs(all, id) <==> all[k].status is Running,
        with_status(all, id, status) == all.update(k, Row { status, ..all[k] }),
        with_title(all, id, t) == all.update(k, Row { title: t, ..all[k] }),
{
    lemma_first_with(all, id, 0);
    let j = first_with(all, id, 0)->0;
    if j < k {
        assert(all[j].id != all[k].id);
    }
    assert(j == k);
    if runs(all, id) {
        let i = choose|i: int|
            0 <= i < all.len() && (#[trigger] all[i]).id == id && all[i].status is Running;
        if i < k {
            assert(all[i].id != all[k].id);
        } else if k < i {
            assert(all[k].id != all[i].id);
        }
    } else if all[k].status is Running {
        assert(runs(all, id));
    }
}

} // verus!
