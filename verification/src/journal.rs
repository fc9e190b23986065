//! The log, and the errors of the graphics card that go into it.
use crate::text;
use vstd::prelude::*;

verus! {

/// How many lines the log keeps.
pub const LOG_LIMIT: usize = 400;

/// How many errors of the graphics card wait to be written to the log.
pub const GPU_ERROR_LIMIT: usize = 4;

/// The lines of the log once one more has come: the oldest go where there are too many.
pub open spec fn logged(lines: Seq<Seq<char>>, line: Seq<char>) -> Seq<Seq<char>> {
    newest(lines.push(line))
}

/// At most so many lines as the log keeps, from the end.
pub open spec fn newest(lines: Seq<Seq<char>>) -> Seq<Seq<char>> {
    if lines.len() > LOG_LIMIT {
        lines.skip(lines.len() - LOG_LIMIT)
    } else {
        lines
    }
}

/// The log: its newest lines.
#[derive(Debug)]
pub struct Log {
    pub lines: Vec<String>,
}

impl View for Log {
    type V = Seq<Seq<char>>;

    open spec fn view(&self) -> Seq<Seq<char>> {
        text::views(self.lines@)
    }
}

impl Log {
    pub fn new() -> (r: Log)
        ensures
            r@ == Seq::<Seq<char>>::empty(),
    {
        let lines: Vec<String> = Vec::new();
        assert(text::views(lines@) =~= Seq::empty());
        Log { lines }
    }

    pub fn clear(&mut self)
        ensures
            final(self)@ == Seq::<Seq<char>>::empty(),
    {
        self.lines.clear();
        assert(self@ =~= Seq::empty());
    }

    /// Adds a line.
    pub fn push_log(&mut self, line: String)
        ensures
            final(self)@ == logged(old(self)@, line@),
    {
        let ghost before = self@;
        self.lines.push(line);
        assert(self@ =~= before.push(line@));
        let len = self.lines.len();
        if len > LOG_LIMIT {
            let kept = self.lines.split_off(len - LOG_LIMIT);
            self.lines = kept;
            assert(self@ =~= before.push(line@).skip(len - LOG_LIMIT));
        }
    }

    /// Adds a line unless it repeats the last one.
    fn push_new(&mut self, line: String)
        ensures
            final(self)@ == logged_once(old(self)@, line@),
    {
        if self.lines.len() > 0 {
            let last = self.lines.len() - 1;
            assert(self@.last() == self.lines@[last as int]@);
            if text::same_text(self.lines[last].as_str(), line.as_str()) {
                return;
            }
        }
        self.push_log(line);
    }

    /// Writes the errors of the graphics card to the log.
    pub fn drain_gpu_errors(&mut self, messages: Vec<String>)
        ensures
            final(self)@ == with_errors(old(self)@, text::views(messages@)),
    {
        let ghost all = text::views(messages@);
        let mut i: usize = 0;
        assert(all.take(0) =~= Seq::empty());
        while i < messages.len()
            invariant
                i <= messages@.len(),
                all == text::views(messages@),
                self@ == with_errors(old(self)@, all.take(i as int)),
            decreases messages@.len() - i,
        {
            proof {
                assert(all.take(i + 1).drop_last() =~= all.take(i as int));
                assert(all.take(i + 1).last() == messages@[i as int]@);
            }
            let line = gpu_error_line(messages[i].as_str());
            self.push_new(line);
            i += 1;
        }
        assert(all.take(i as int) =~= all);
    }
}

/// The lines of the log once a line has come that is not to repeat the last one.
pub open spec fn logged_once(lines: Seq<Seq<char>>, line: Seq<char>) -> Seq<Seq<char>> {
    if lines.len() > 0 && lines.last() == line {
        lines
    } else {
        logged(lines, line)
    }
}

/// The lines of the log once errors of the graphics card were written to it. Two errors that
/// read the same to the user leave one line.
pub open spec fn with_errors(lines: Seq<Seq<char>>, messages: Seq<Seq<char>>) -> Seq<Seq<char>>
    decreases messages.len(),
{
    if messages.len() == 0 {
        lines
    } else {
        logged_once(
            with_errors(lines, messages.drop_last()),
            error_text(messages.last()),
        )
    }
}

/// The log never outgrows its limit, and its last line is the newest.
pub proof fn log_stays_bounded(lines: Seq<Seq<char>>, line: Seq<char>)
    ensures
        logged(lines, line).len() <= LOG_LIMIT,
        logged(lines, line).last() == line,
{
}

/// Whether a text holds another.
pub open spec fn holds(s: Seq<char>, part: Seq<char>) -> bool {
    exists|i: int|
        0 <= i <= s.len() - part.len() && #[trigger] s.subrange(i, i + part.len()) == part
}

/// Whether an error of the graphics card tells that the window is larger than it can draw.
pub open spec fn is_too_large(message: Seq<char>) -> bool {
    holds(message, "maximum supported texture size"@) || holds(
        message,
        "max_texture_dimension_2d"@,
    )
}

/// How an error of the graphics card is written to the log. A cause that is not recognised is
/// shown as it came.
pub open spec fn error_text(message: Seq<char>) -> Seq<char> {
    if is_too_large(message) {
        "Окно оказалось больше, чем может отрисовать видеокарта (предел — 8192 точки по стороне). Картинка временно не обновляется; уменьшите окно, и рисование восстановится. Загрузка при этом не прервана."@
    } else {
        "Ошибка отрисовки: "@ + message
    }
}

/// Whether a text holds another.
pub fn text_holds(s: &str, part: &str) -> (r: bool)
    ensures
        r == holds(s@, part@),
{
    let v = text::chars_of(s);
    let p = text::chars_of(part);
    if p.len() > v.len() {
        return false;
    }
    let last: usize = v.len() - p.len();
    let mut i: usize = 0;
    while i <= last
        invariant
            v@ == s@,
            p@ == part@,
            last == v@.len() - p@.len(),
            i <= last + 1,
            v@.len() <= usize::MAX,
            forall|k: int| 0 <= k < i ==> #[trigger] s@.subrange(k, k + part@.len()) != part@,
        decreases last + 1 - i,
    {
        let mut j: usize = 0;
        while j < p.len() && v[i + j] == p[j]
            invariant
                v@ == s@,
                p@ == part@,
                i <= last,
                last == v@.len() - p@.len(),
                v@.len() <= usize::MAX,
                j <= p@.len(),
                forall|k: int| 0 <= k < j ==> v@[i + k] == p@[k],
            decreases p@.len() - j,
        {
            j += 1;
        }
        if j == p.len() {
            assert(s@.subrange(i as int, i + part@.len()) =~= part@);
            return true;
        }
        assert(s@.subrange(i as int, i + part@.len())[j as int] != part@[j as int]);
        if i == last {
            return false;
        }
        i += 1;
    }
    false
}

pub fn gpu_error_line(message: &str) -> (r: String)
    ensures
        r@ == error_text(message@),
{
    if text_holds(message, "maximum supported texture size") || text_holds(
        message,
        "max_texture_dimension_2d",
    ) {
        "Окно оказалось больше, чем может отрисовать видеокарта (предел — 8192 точки по стороне). Картинка временно не обновляется; уменьшите окно, и рисование восстановится. Загрузка при этом не прервана.".to_owned()
    } else {
        let mut out = "Ошибка отрисовки: ".to_owned();
        out.append(message);
        out
    }
}

/// Errors of the graphics card that were caught and not yet written to the log.
#[derive(Debug)]
pub struct GpuErrors {
    pub pending: bool,
    pub messages: Vec<String>,
}

/// The messages once one more has come: one that repeats the last is left out, and so is what
/// comes when too many wait.
pub open spec fn caught(messages: Seq<Seq<char>>, message: Seq<char>) -> Seq<Seq<char>> {
    if (messages.len() > 0 && messages.last() == message) || messages.len() >= GPU_ERROR_LIMIT {
        messages
    } else {
        messages.push(message)
    }
}

impl Default for GpuErrors {
    fn default() -> (r: GpuErrors)
        ensures
            r@ == Seq::<Seq<char>>::empty(),
            r.well_formed(),
    {
        let messages: Vec<String> = Vec::new();
        assert(text::views(messages@) =~= Seq::empty());
        GpuErrors { pending: false, messages }
    }
}

impl View for GpuErrors {
    type V = Seq<Seq<char>>;

    open spec fn view(&self) -> Seq<Seq<char>> {
        text::views(self.messages@)
    }
}

impl GpuErrors {
    /// There are never too many messages, and the flag tells whether there are any.
    pub open spec fn well_formed(&self) -> bool {
        &&& self.messages@.len() <= GPU_ERROR_LIMIT
        &&& self.pending == (self.messages@.len() > 0)
    }

    /// Takes note of an error.
    pub fn push(&mut self, message: String)
        requires
            old(self).well_formed(),
        ensures
            final(self).well_formed(),
            final(self)@ == caught(old(self)@, message@),
    {
        let len = self.messages.len();
        if len > 0 {
            assert(self@.last() == self.messages@[len - 1]@);
            if text::same_text(self.messages[len - 1].as_str(), message.as_str()) {
                return;
            }
        }
        if len < GPU_ERROR_LIMIT {
            let ghost before = self@;
            self.messages.push(message);
            self.pending = true;
            assert(self@ =~= before.push(message@));
        }
    }

    /// Hands out what was noted.
    pub fn take(&mut self) -> (r: Vec<String>)
        requires
            old(self).well_formed(),
        ensures
            final(self).well_formed(),
            text::views(r@) == old(self)@,
            final(self)@ == Seq::<Seq<char>>::empty(),
    {
        let mut out: Vec<String> = Vec::new();
        if !self.pending {
            assert(text::views(out@) =~= old(self)@);
            assert(self@ =~= Seq::empty());
            return out;
        }
        self.pending = false;
        out.append(&mut self.messages);
        assert(text::views(out@) =~= old(self)@);
        assert(self@ =~= Seq::empty());
        out
    }
}

/// Messages that tell of one limit in different words leave one line in the log.
pub proof fn one_limit_leaves_one_line(lines: Seq<Seq<char>>, a: Seq<char>, b: Seq<char>)
    requires
        is_too_large(a),
        is_too_large(b),
    ensures
        error_text(a) == error_text(b),
        with_errors(lines, seq![a, b]) == with_errors(lines, seq![a]),
{
    assert(seq![a, b].drop_last() =~= seq![a]);
    assert(seq![a].drop_last() =~= Seq::empty());
    let first = with_errors(lines, seq![a]);
    assert(with_errors(lines, seq![a].drop_last()) == lines);
    assert(first.last() == error_text(a));
}

/// However often an error comes, few messages wait, and a repeat adds none.
pub proof fn repeated_errors_are_collapsed(messages: Seq<Seq<char>>, message: Seq<char>)
    requires
        messages.len() <= GPU_ERROR_LIMIT,
    ensures
        caught(messages, message).len() <= GPU_ERROR_LIMIT,
        caught(caught(messages, message), message) == caught(messages, message),
{
}

/// A line that comes is added behind the others; of more than four hundred the oldest goes.
pub proof fn lines_are_added_behind(lines: Seq<Seq<char>>, line: Seq<char>)
    ensures
        lines.len() < 400 ==> logged(lines, line) == lines.push(line),
        lines.len() == 400 ==> logged(lines, line) == lines.skip(1).push(line),
{
    if lines.len() == 400 {
        assert(logged(lines, line) =~= lines.skip(1).push(line));
    }
}

/// An error of the graphics card that tells of too large a window is told in words of ours, any
/// other as it came.
pub proof fn errors_are_told_in_words(before: Seq<char>, behind: Seq<char>, message: Seq<char>)
    ensures
        ({
            let told = "Окно оказалось больше, чем может отрисовать видеокарта (предел — 8192 точки по стороне). Картинка временно не обновляется; уменьшите окно, и рисование восстановится. Загрузка при этом не прервана."@;
            &&& error_text(before + "maximum supported texture size"@ + behind) == told
            &&& error_text(before + "max_texture_dimension_2d"@ + behind) == told
            &&& !holds(message, "maximum supported texture size"@) && !holds(
                message,
                "max_texture_dimension_2d"@,
            ) ==> error_text(message) == "Ошибка отрисовки: "@ + message
        }),
{
    let a = "maximum supported texture size"@;
    let b = "max_texture_dimension_2d"@;
    let x = before + a + behind;
    let y = before + b + behind;
    let n = before.len() as int;
    assert(x.subrange(n, n + a.len()) =~= a);
    assert(y.subrange(n, n + b.len()) =~= b);
    assert(holds(x, a));
    assert(holds(y, b));
}

/// An error is caught once in a row, and no more than four wait.
pub proof fn errors_wait_to_be_told(messages: Seq<Seq<char>>, message: Seq<char>)
    ensures
        messages.len() >= 4 ==> caught(messages, message) == messages,
        messages.len() == 0 ==> caught(messages, message) == seq![message],
        0 < messages.len() < 4 && messages.last() != message ==> caught(messages, message)
            == messages.push(message),
        messages.len() > 0 && messages.last() == message ==> caught(messages, message) == messages,
{
    if messages.len() == 0 {
        assert(messages.push(message) =~= seq![message]);
    }
}

/// Errors are written to the log one by one, in their order.
pub proof fn errors_are_written_in_order(
    lines: Seq<Seq<char>>,
    messages: Seq<Seq<char>>,
    next: Seq<char>,
)
    ensures
        with_errors(lines, Seq::empty()) == lines,
        ({
            let before = with_errors(lines, messages);
            let line = error_text(next);
            with_errors(lines, messages.push(next)) == (if before.len() > 0 && before.last()
                == line {
                before
            } else {
                logged(before, line)
            })
        }),
{
    assert(messages.push(next).drop_last() =~= messages);
}

} // verus!
