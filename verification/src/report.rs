//! A report on the machine: what was found, and how each finding is to be taken.
use crate::text;
use crate::tone::Tone;
use vstd::prelude::*;

verus! {

/// How a finding is to be taken.
#[derive(Debug, Clone, Copy, PartialEq, Eq, Structural)]
pub enum CheckStatus {
    Fine,
    /// Something is worth a look.
    Warning,
    /// It could not be found out.
    Failed,
    /// Nothing is known.
    Unknown,
}

impl CheckStatus {
    pub open spec fn name(self) -> Seq<char> {
        match self {
            CheckStatus::Fine => "В порядке"@,
            CheckStatus::Warning => "Внимание"@,
            CheckStatus::Failed => "Ошибка"@,
            CheckStatus::Unknown => "Нет данных"@,
        }
    }

    pub fn label(self) -> (r: &'static str)
        ensures
            r@ == self.name(),
    {
        match self {
            CheckStatus::Fine => "В порядке",
            CheckStatus::Warning => "Внимание",
            CheckStatus::Failed => "Ошибка",
            CheckStatus::Unknown => "Нет данных",
        }
    }
}

/// The colour of a finding.
pub open spec fn tone_of(status: CheckStatus) -> Tone {
    match status {
        CheckStatus::Fine => Tone::Success,
        CheckStatus::Warning => Tone::Warning,
        CheckStatus::Failed => Tone::Error,
        CheckStatus::Unknown => Tone::Muted,
    }
}

pub fn check_color(status: CheckStatus) -> (r: Tone)
    ensures
        r == tone_of(status),
{
    match status {
        CheckStatus::Fine => Tone::Success,
        CheckStatus::Warning => Tone::Warning,
        CheckStatus::Failed => Tone::Error,
        CheckStatus::Unknown => Tone::Muted,
    }
}

/// A value by its name; none where it is not known. A value that is not known is never shown
/// as a zero.
#[derive(Debug)]
pub struct CheckRow {
    pub label: String,
    pub value: Option<String>,
}

/// What a [`CheckRow`] says.
#[verifier::ext_equal]
pub struct RowText {
    pub label: Seq<char>,
    pub value: Option<Seq<char>>,
}

pub open spec fn row(label: Seq<char>, value: Option<Seq<char>>) -> RowText {
    RowText { label, value }
}

impl View for CheckRow {
    type V = RowText;

    open spec fn view(&self) -> RowText {
        RowText { label: self.label@, value: text::said(self.value) }
    }
}

impl CheckRow {
    pub fn new(label: &str, value: &str) -> (r: CheckRow)
        ensures
            r@ == row(label@, Some(value@)),
    {
        CheckRow { label: label.to_owned(), value: Some(value.to_owned()) }
    }

    pub fn missing(label: &str) -> (r: CheckRow)
        ensures
            r@ == row(label@, None),
    {
        CheckRow { label: label.to_owned(), value: None }
    }

    pub fn maybe(label: &str, value: &Option<String>) -> (r: CheckRow)
        ensures
            r@ == row(label@, text::said(*value)),
    {
        CheckRow { label: label.to_owned(), value: text::copy_option(value) }
    }
}

/// What a list of rows says.
pub open spec fn row_texts(rows: Seq<CheckRow>) -> Seq<RowText> {
    rows.map_values(|r: CheckRow| r@)
}

/// A finding.
#[derive(Debug)]
pub struct Check {
    pub name: String,
    pub status: CheckStatus,
    pub summary: String,
    pub rows: Vec<CheckRow>,
    pub advice: Option<String>,
}

/// What a [`Check`] says.
#[verifier::ext_equal]
pub struct Finding {
    pub name: Seq<char>,
    pub status: CheckStatus,
    pub summary: Seq<char>,
    pub rows: Seq<RowText>,
    pub advice: Option<Seq<char>>,
}

impl View for Check {
    type V = Finding;

    open spec fn view(&self) -> Finding {
        Finding {
            name: self.name@,
            status: self.status,
            summary: self.summary@,
            rows: row_texts(self.rows@),
            advice: text::said(self.advice),
        }
    }
}

/// What a list of findings says.
pub open spec fn findings(checks: Seq<Check>) -> Seq<Finding> {
    checks.map_values(|c: Check| c@)
}

/// All findings, in the order in which they are shown.
#[derive(Debug)]
pub struct SystemReport {
    pub checks: Vec<Check>,
}

/// How many findings are to be taken in which way.
#[derive(Debug, Clone, Copy, PartialEq, Eq, Structural)]
pub struct Tally {
    pub ok: u64,
    pub warning: u64,
    pub failed: u64,
    pub unknown: u64,
}

/// How many findings have a status.
pub open spec fn count(found: Seq<Finding>, status: CheckStatus) -> nat
    decreases found.len(),
{
    if found.len() == 0 {
        0
    } else {
        count(found.drop_last(), status) + (if found.last().status == status {
            1nat
        } else {
            0
        })
    }
}

/// A headline with one more count; a count of zero is left out.
pub open spec fn with_count(line: Seq<char>, name: Seq<char>, n: nat) -> Seq<char> {
    if n == 0 {
        line
    } else {
        line + " · "@ + name + ": "@ + text::decimal(n)
    }
}

/// The headline of a report. It counts what was looked at and promises nothing: the report
/// sees but a part of the machine.
pub open spec fn headline_text(found: Seq<Finding>) -> Seq<char> {
    let all = "Пунктов: "@ + text::decimal(found.len());
    let ok = with_count(all, "в порядке"@, count(found, CheckStatus::Fine));
    let warning = with_count(ok, "с замечанием"@, count(found, CheckStatus::Warning));
    let failed = with_count(warning, "не удалось узнать"@, count(found, CheckStatus::Failed));
    with_count(failed, "без данных"@, count(found, CheckStatus::Unknown))
}

/// A row as it is written to a file: a dash where there is no value.
pub open spec fn row_line(r: RowText) -> Seq<char> {
    r.label + ": "@ + (match r.value {
        Some(v) => v,
        None => "—"@,
    }) + "\n"@
}

/// The rows `..k` as they are written to a file.
pub open spec fn row_lines(rows: Seq<RowText>, k: int) -> Seq<char>
    decreases k,
{
    if k <= 0 {
        Seq::empty()
    } else {
        row_lines(rows, k - 1) + row_line(rows[k - 1])
    }
}

/// A finding as it is written to a file.
pub open spec fn finding_text(f: Finding) -> Seq<char> {
    "["@ + f.status.name() + "] "@ + f.name + "\n"@ + f.summary + "\n"@ + row_lines(
        f.rows,
        f.rows.len() as int,
    ) + (match f.advice {
        Some(a) => "Совет: "@ + a + "\n"@,
        None => Seq::empty(),
    }) + "\n"@
}

/// The findings `..k` as they are written to a file.
pub open spec fn findings_text(found: Seq<Finding>, k: int) -> Seq<char>
    decreases k,
{
    if k <= 0 {
        Seq::empty()
    } else {
        findings_text(found, k - 1) + finding_text(found[k - 1])
    }
}

fn add_count(line: &mut String, name: &str, n: u64)
    ensures
        final(line)@ == with_count(old(line)@, name@, n as nat),
{
    if n > 0 {
        line.append(" · ");
        line.append(name);
        line.append(": ");
        line.append(text::decimal_text(n).as_str());
    }
}

fn write_rows(out: &mut String, rows: &Vec<CheckRow>)
    ensures
        final(out)@ == old(out)@ + row_lines(row_texts(rows@), rows@.len() as int),
{
    let ghost all = row_texts(rows@);
    let mut i: usize = 0;
    assert(out@ =~= old(out)@ + row_lines(all, 0));
    while i < rows.len()
        invariant
            i <= rows@.len(),
            all == row_texts(rows@),
            out@ == old(out)@ + row_lines(all, i as int),
        decreases rows@.len() - i,
    {
        assert(all[i as int] == rows@[i as int]@);
        let ghost before = out@;
        out.append(rows[i].label.as_str());
        out.append(": ");
        match &rows[i].value {
            Some(v) => out.append(v.as_str()),
            None => out.append("—"),
        }
        out.append("\n");
        assert(out@ =~= before + row_line(all[i as int]));
        i += 1;
        assert(out@ =~= old(out)@ + row_lines(all, i as int));
    }
}

fn write_check(out: &mut String, check: &Check)
    ensures
        final(out)@ == old(out)@ + finding_text(check@),
{
    out.append("[");
    out.append(check.status.label());
    out.append("] ");
    out.append(check.name.as_str());
    out.append("\n");
    out.append(check.summary.as_str());
    out.append("\n");
    write_rows(out, &check.rows);
    if let Some(a) = &check.advice {
        out.append("Совет: ");
        out.append(a.as_str());
        out.append("\n");
    }
    out.append("\n");
    assert(out@ =~= old(out)@ + finding_text(check@));
}

impl View for SystemReport {
    type V = Seq<Finding>;

    open spec fn view(&self) -> Seq<Finding> {
        findings(self.checks@)
    }
}

impl SystemReport {
    /// Counts the findings by how they are to be taken.
    pub fn tally(&self) -> (r: Tally)
        ensures
            r.ok == count(self@, CheckStatus::Fine),
            r.warning == count(self@, CheckStatus::Warning),
            r.failed == count(self@, CheckStatus::Failed),
            r.unknown == count(self@, CheckStatus::Unknown),
            r.ok + r.warning + r.failed + r.unknown == self@.len(),
    {
        let ghost all = self@;
        let mut t = Tally { ok: 0, warning: 0, failed: 0, unknown: 0 };
        let mut i: usize = 0;
        assert(all.take(0) =~= Seq::empty());
        while i < self.checks.len()
            invariant
                i <= self.checks@.len(),
                all == findings(self.checks@),
                t.ok == count(all.take(i as int), CheckStatus::Fine),
                t.warning == count(all.take(i as int), CheckStatus::Warning),
                t.failed == count(all.take(i as int), CheckStatus::Failed),
                t.unknown == count(all.take(i as int), CheckStatus::Unknown),
                t.ok + t.warning + t.failed + t.unknown == i,
            decreases self.checks@.len() - i,
        {
            proof {
                assert(all[i as int] == self.checks@[i as int]@);
                assert(all.take(i + 1).drop_last() =~= all.take(i as int));
                assert(all.take(i + 1).last() == all[i as int]);
            }
            match self.checks[i].status {
                CheckStatus::Fine => {
                    t.ok = t.ok + 1;
                },
                CheckStatus::Warning => {
                    t.warning = t.warning + 1;
                },
                CheckStatus::Failed => {
                    t.failed = t.failed + 1;
                },
                CheckStatus::Unknown => {
                    t.unknown = t.unknown + 1;
                },
            }
            i += 1;
        }
        assert(all.take(i as int) =~= all);
        t
    }

    /// The headline.
    pub fn headline(&self) -> (r: String)
        ensures
            r@ == headline_text(self@),
    {
        let t = self.tally();
        let mut out = "Пунктов: ".to_owned();
        out.append(text::decimal_text(self.checks.len() as u64).as_str());
        add_count(&mut out, "в порядке", t.ok);
        add_count(&mut out, "с замечанием", t.warning);
        add_count(&mut out, "не удалось узнать", t.failed);
        add_count(&mut out, "без данных", t.unknown);
        out
    }

    /// The report as it is written to a file.
    pub fn to_text(&self) -> (r: String)
        ensures
            r@ == findings_text(self@, self@.len() as int),
    {
        let ghost all = self@;
        let mut out = String::new();
        let mut i: usize = 0;
        while i < self.checks.len()
            invariant
                i <= self.checks@.len(),
                all == findings(self.checks@),
                out@ == findings_text(all, i as int),
            decreases self.checks@.len() - i,
        {
            assert(all[i as int] == self.checks@[i as int]@);
            write_check(&mut out, &self.checks[i]);
            i += 1;
        }
        out
    }
}

/// A value that is not known is written as a dash, never as a zero or as nothing.
pub proof fn missing_value_is_a_dash(label: Seq<char>)
    ensures
        row_line(row(label, None)) == label + ": "@ + "—"@ + "\n"@,
{
}

/// The states of a finding are told apart by word and by colour.
pub proof fn findings_are_told_apart()
    ensures
        CheckStatus::Fine.name() == "В порядке"@ && tone_of(CheckStatus::Fine) == Tone::Success,
        CheckStatus::Warning.name() == "Внимание"@ && tone_of(CheckStatus::Warning)
            == Tone::Warning,
        CheckStatus::Failed.name() == "Ошибка"@ && tone_of(CheckStatus::Failed) == Tone::Error,
        CheckStatus::Unknown.name() == "Нет данных"@ && tone_of(CheckStatus::Unknown) == Tone::Muted,
{
}

/// The findings of a state are counted: one more of that state is one more, one of another
/// state is none more.
pub proof fn findings_are_counted(found: Seq<Finding>, next: Finding, status: CheckStatus)
    ensures
        count(Seq::empty(), status) == 0,
        count(found.push(next), status) == count(found, status) + (if next.status == status {
            1int
        } else {
            0
        }),
{
    assert(found.push(next).drop_last() =~= found);
}

/// What a headline says of one state: nothing where no finding is of it.
pub open spec fn headline_part(found: Seq<Finding>, words: Seq<char>, status: CheckStatus) -> Seq<
    char,
> {
    if count(found, status) == 0 {
        Seq::empty()
    } else {
        " · "@ + words + ": "@ + text::decimal(count(found, status))
    }
}

proof fn lemma_with_part(
    line: Seq<char>,
    found: Seq<Finding>,
    words: Seq<char>,
    status: CheckStatus,
)
    ensures
        with_count(line, words, count(found, status)) == line + headline_part(found, words, status),
{
    assert(with_count(line, words, count(found, status)) =~= line + headline_part(
        found,
        words,
        status,
    ));
}

/// The headline tells how many findings there are, and how many are of each state that occurs.
pub proof fn headline_counts_the_findings(found: Seq<Finding>)
    ensures
        headline_text(found) == "Пунктов: "@ + text::decimal(found.len()) + headline_part(
            found,
            "в порядке"@,
            CheckStatus::Fine,
        ) + headline_part(found, "с замечанием"@, CheckStatus::Warning) + headline_part(
            found,
            "не удалось узнать"@,
            CheckStatus::Failed,
        ) + headline_part(found, "без данных"@, CheckStatus::Unknown),
{
    let all = "Пунктов: "@ + text::decimal(found.len());
    lemma_with_part(all, found, "в порядке"@, CheckStatus::Fine);
    let ok = all + headline_part(found, "в порядке"@, CheckStatus::Fine);
    lemma_with_part(ok, found, "с замечанием"@, CheckStatus::Warning);
    let warning = ok + headline_part(found, "с замечанием"@, CheckStatus::Warning);
    lemma_with_part(warning, found, "не удалось узнать"@, CheckStatus::Failed);
    let failed = warning + headline_part(found, "не удалось узнать"@, CheckStatus::Failed);
    lemma_with_part(failed, found, "без данных"@, CheckStatus::Unknown);
}

proof fn lemma_same_findings(a: Seq<Finding>, b: Seq<Finding>, k: int)
    requires
        0 <= k <= a.len(),
        k <= b.len(),
        forall|i: int| 0 <= i < k ==> a[i] == b[i],
    ensures
        findings_text(a, k) == findings_text(b, k),
    decreases k,
{
    if k > 0 {
        lemma_same_findings(a, b, k - 1);
    }
}

/// The file tells every finding in its order, one behind the other: its state and its name, its
/// summary, its rows and its advice.
pub proof fn file_tells_every_finding(found: Seq<Finding>, f: Finding)
    ensures
        findings_text(Seq::empty(), 0) == Seq::<char>::empty(),
        findings_text(found.push(f), found.len() as int + 1) == findings_text(
            found,
            found.len() as int,
        ) + "["@ + f.status.name() + "] "@ + f.name + "\n"@ + f.summary + "\n"@ + row_lines(
            f.rows,
            f.rows.len() as int,
        ) + (if f.advice is Some {
            "Совет: "@ + f.advice->0 + "\n"@
        } else {
            Seq::empty()
        }) + "\n"@,
{
    let n = found.len() as int;
    lemma_same_findings(found, found.push(f), n);
    assert(findings_text(found.push(f), n + 1) =~= findings_text(found, n) + "["@ + f.status.name()
        + "] "@ + f.name + "\n"@ + f.summary + "\n"@ + row_lines(f.rows, f.rows.len() as int) + (
    if f.advice is Some {
        "Совет: "@ + f.advice->0 + "\n"@
    } else {
        Seq::empty()
    }) + "\n"@);
}

/// The rows of a finding are told one to a line, each by its name and its value.
pub proof fn file_tells_every_row(rows: Seq<RowText>, k: int)
    ensures
        row_lines(rows, 0) == Seq::<char>::empty(),
        0 <= k && rows[k].value is Some ==> row_lines(rows, k + 1) == row_lines(rows, k)
            + rows[k].label + ": "@ + rows[k].value->0 + "\n"@,
        0 <= k && rows[k].value is None ==> row_lines(rows, k + 1) == row_lines(rows, k)
            + rows[k].label + ": —\n"@,
{
    reveal_strlit(": ");
    reveal_strlit("—");
    reveal_strlit("\n");
    reveal_strlit(": —\n");
    if 0 <= k {
        if rows[k].value is Some {
            assert(row_lines(rows, k + 1) =~= row_lines(rows, k) + rows[k].label + ": "@
                + rows[k].value->0 + "\n"@);
        } else {
            assert(row_lines(rows, k + 1) =~= row_lines(rows, k) + rows[k].label + ": —\n"@);
        }
    }
}

/// What a report says is what its findings and their rows hold, in their order.
pub proof fn report_says_what_it_holds(r: SystemReport, c: Check)
    ensures
        r@.len() == r.checks@.len(),
        forall|i: int| 0 <= i < r.checks@.len() ==> r@[i] == (#[trigger] r.checks@[i])@,
        c@.name == c.name@ && c@.status == c.status && c@.summary == c.summary@,
        c.advice is Some <==> c@.advice is Some,
        c.advice is Some ==> c@.advice->0 == c.advice->0@,
        c@.rows.len() == c.rows@.len(),
        forall|i: int|
            0 <= i < c.rows@.len() ==> c@.rows[i].label == (#[trigger] c.rows@[i]).label@ && (
            c.rows@[i].value is Some <==> c@.rows[i].value is Some) && (c.rows@[i].value is Some
                ==> c@.rows[i].value->0 == c.rows@[i].value->0@),
{
    assert forall|i: int| 0 <= i < c.rows@.len() implies c@.rows[i].label == (
    #[trigger] c.rows@[i]).label@ && (c.rows@[i].value is Some <==> c@.rows[i].value is Some) && (
    c.rows@[i].value is Some ==> c@.rows[i].value->0 == c.rows@[i].value->0@) by {
        assert(c@.rows[i] == c.rows@[i]@);
    }
}

} // verus!
