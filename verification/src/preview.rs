//! What the site tells of the link in the field, before anything is downloaded.
use crate::events;
use crate::events::{Event, News};
use crate::model;
use crate::model::{CookieSource, Facts, MediaInfo, Request, Wish};
use crate::paths;
use crate::paths::{FilePath, Split};
use crate::text;
use vstd::prelude::*;

verus! {

/// How long the link has to stay unchanged before the site is asked, in milliseconds.
pub const PREVIEW_DEBOUNCE: u64 = 800;

/// What is known of the link in the field.
#[derive(Debug, Clone, Copy, PartialEq, Eq, Structural)]
pub enum PreviewState {
    /// There is nothing to ask about.
    Idle,
    /// The site is being asked, or will be.
    Asking,
    /// The site has answered.
    Ready,
    /// The site has not answered.
    Failed,
}

/// The question about the link in the field, and the answer to it.
#[derive(Debug)]
pub struct Preview {
    pub url: String,
    pub cookies: CookieSource,
    pub cookie_file: Option<FilePath>,
    /// When the site is to be asked, in milliseconds.
    pub due: Option<u64>,
    /// Whether a question is under way, whose answer is waited for.
    pub asking: bool,
    pub info: Option<MediaInfo>,
    /// Whether a picture is shown.
    pub covered: bool,
    pub state: PreviewState,
}

/// What a [`Preview`] says.
#[verifier::ext_equal]
pub struct Question {
    pub url: Seq<char>,
    pub cookies: CookieSource,
    pub cookie_file: Option<Split>,
    pub due: Option<u64>,
    pub asking: bool,
    pub info: Option<Facts>,
    pub covered: bool,
    pub state: PreviewState,
}

/// Whether `s` begins with `start` and goes on.
pub open spec fn goes_on(s: Seq<char>, start: Seq<char>) -> bool {
    s.len() > start.len() && s.take(start.len() as int) == start
}

/// Whether a text looks like a link: an address of the web that goes on behind its scheme.
pub open spec fn is_link(s: Seq<char>) -> bool {
    goes_on(s, "http://"@) || goes_on(s, "https://"@)
}

fn text_goes_on(s: &str, start: &str) -> (r: bool)
    ensures
        r == goes_on(s@, start@),
{
    let v = text::chars_of(s);
    let p = text::chars_of(start);
    if v.len() <= p.len() {
        return false;
    }
    let mut i: usize = 0;
    while i < p.len()
        invariant
            v@ == s@,
            p@ == start@,
            i <= p@.len() < v@.len(),
            forall|k: int| 0 <= k < i ==> v@[k] == p@[k],
        decreases p@.len() - i,
    {
        if v[i] != p[i] {
            assert(s@.take(start@.len() as int)[i as int] != start@[i as int]);
            return false;
        }
        i += 1;
    }
    assert(s@.take(start@.len() as int) =~= start@);
    true
}

pub fn looks_like_url(s: &str) -> (r: bool)
    ensures
        r == is_link(s@),
{
    text_goes_on(s, "http://") || text_goes_on(s, "https://")
}

/// The moment at which the site is to be asked about a link that was changed just now.
pub open spec fn due_after(now: u64) -> u64 {
    if now > u64::MAX - PREVIEW_DEBOUNCE {
        u64::MAX
    } else {
        (now + PREVIEW_DEBOUNCE) as u64
    }
}

fn later(now: u64) -> (r: u64)
    ensures
        r == due_after(now),
{
    if now > u64::MAX - PREVIEW_DEBOUNCE {
        u64::MAX
    } else {
        now + PREVIEW_DEBOUNCE
    }
}

/// A preview with nothing to ask about, under a login.
pub open spec fn blank(cookies: CookieSource, cookie_file: Option<Split>) -> Question {
    Question {
        url: Seq::empty(),
        cookies,
        cookie_file,
        due: None,
        asking: false,
        info: None,
        covered: false,
        state: PreviewState::Idle,
    }
}

/// The preview of a link under a login, as it is right after a change.
pub open spec fn aimed(
    url: Seq<char>,
    cookies: CookieSource,
    cookie_file: Option<Split>,
    now: u64,
) -> Question {
    let base = blank(cookies, cookie_file);
    if is_link(url) {
        Question { url, due: Some(due_after(now)), state: PreviewState::Asking, ..base }
    } else {
        base
    }
}

/// Whether a preview is of this link under this login.
pub open spec fn is_of(
    q: Question,
    url: Seq<char>,
    cookies: CookieSource,
    cookie_file: Option<Split>,
) -> bool {
    q.url == url && q.cookies == cookies && paths::same_option(q.cookie_file, cookie_file)
}

/// Whether a preview is of what a request asks for.
pub open spec fn concerns(q: Question, request: Wish) -> bool {
    is_of(q, request.url, request.cookies, request.cookie_file)
}

/// The preview once the question is to be asked again.
pub open spec fn retried(q: Question, now: u64) -> Question {
    if q.url.len() == 0 {
        q
    } else {
        Question { due: Some(due_after(now)), state: PreviewState::Asking, ..q }
    }
}

/// The preview once an answer has come.
pub open spec fn answered(q: Question, facts: Facts) -> Question {
    Question { info: Some(facts), state: PreviewState::Ready, ..q }
}

/// The preview once a question has ended. `answered` tells whether an answer came just now;
/// silence is not the same as an answer.
pub open spec fn ended(q: Question, answered: bool) -> Question {
    Question {
        asking: false,
        state: (if q.state == PreviewState::Asking && q.info is None && !answered {
            PreviewState::Failed
        } else {
            q.state
        }),
        ..q
    }
}

/// Whether one of the reports is an answer of the site.
pub open spec fn any_answer(list: Seq<News>) -> bool {
    exists|i: int| 0 <= i < list.len() && (#[trigger] list[i]) is Info
}

/// The preview once reports were taken; `disconnected` tells that no more will come.
pub open spec fn taken(q: Question, list: Seq<News>, disconnected: bool) -> Question {
    if q.asking && disconnected {
        ended(q, any_answer(list))
    } else {
        q
    }
}

/// Whether a picture can be drawn: it has points, and four bytes for each of them.
pub open spec fn is_drawable(width: int, height: int, len: int) -> bool {
    width > 0 && height > 0 && width * height * 4 == len
}

pub fn picture_is_valid(width: usize, height: usize, len: usize) -> (r: bool)
    ensures
        r == is_drawable(width as int, height as int, len as int),
{
    if width == 0 || height == 0 {
        return false;
    }
    let points = match width.checked_mul(height) {
        Some(points) => points,
        None => {
            assert(width * height * 4 > usize::MAX) by (nonlinear_arith)
                requires
                    width * height > usize::MAX,
                    usize::MAX >= 0,
            ;
            return false;
        },
    };
    match points.checked_mul(4) {
        Some(bytes) => bytes == len,
        None => false,
    }
}

/// What is to be done about the question at a moment.
#[derive(Debug, Clone, Copy, PartialEq, Eq, Structural)]
pub enum Tick {
    /// Nothing.
    Rest,
    /// Wait for so many milliseconds.
    Wait(u64),
    /// Ask the site.
    Ask,
}

pub open spec fn tick_of(q: Question, now: u64) -> Tick {
    match q.due {
        None => Tick::Rest,
        Some(due) => if now < due {
            Tick::Wait((due - now) as u64)
        } else {
            Tick::Ask
        },
    }
}

pub fn has_answer(reports: &Vec<Event>) -> (r: bool)
    ensures
        r == any_answer(events::news(reports@)),
{
    let ghost all = events::news(reports@);
    let mut i: usize = 0;
    while i < reports.len()
        invariant
            i <= reports@.len(),
            all == events::news(reports@),
            forall|k: int| 0 <= k < i ==> !((#[trigger] all[k]) is Info),
        decreases reports@.len() - i,
    {
        assert(all[i as int] == reports@[i as int]@);
        if let Event::Info(_) = &reports[i] {
            assert(all[i as int] is Info);
            return true;
        }
        i += 1;
    }
    false
}

impl Default for Preview {
    fn default() -> (r: Preview)
        ensures
            r@ == blank(CookieSource::Off, None),
    {
        Preview {
            url: String::new(),
            cookies: CookieSource::Off,
            cookie_file: None,
            due: None,
            asking: false,
            info: None,
            covered: false,
            state: PreviewState::Idle,
        }
    }
}

impl View for Preview {
    type V = Question;

    open spec fn view(&self) -> Question {
        Question {
            url: self.url@,
            cookies: self.cookies,
            cookie_file: paths::split_of(self.cookie_file),
            due: self.due,
            asking: self.asking,
            info: model::facts(self.info),
            covered: self.covered,
            state: self.state,
        }
    }
}

impl Preview {
    /// Aims at the link in the field; tells whether anything changed. A question under way is
    /// dropped then, and with it whatever answer was still to come.
    pub fn retarget(
        &mut self,
        url: &str,
        cookies: CookieSource,
        cookie_file: &Option<FilePath>,
        now: u64,
    ) -> (r: bool)
        ensures
            r == !is_of(old(self)@, url@, cookies, paths::split_of(*cookie_file)),
            r ==> final(self)@ == aimed(url@, cookies, paths::split_of(*cookie_file), now),
            !r ==> *final(self) == *old(self),
    {
        if text::same_text(self.url.as_str(), url) && self.cookies == cookies && paths::options_are_same(
            &self.cookie_file,
            cookie_file,
        ) {
            return false;
        }
        self.stop();
        self.cookies = cookies;
        self.cookie_file = paths::copy_option(cookie_file);
        if looks_like_url(url) {
            self.url = url.to_owned();
            self.due = Some(later(now));
            self.state = PreviewState::Asking;
        }
        true
    }

    /// Asks the same question again.
    pub fn retry(&mut self, now: u64)
        ensures
            final(self)@ == retried(old(self)@, now),
    {
        if self.url.as_str().is_empty() {
            return;
        }
        self.due = Some(later(now));
        self.state = PreviewState::Asking;
    }

    /// Drops the question and the answer; the login stays.
    pub fn stop(&mut self)
        ensures
            final(self)@ == blank(old(self)@.cookies, old(self)@.cookie_file),
    {
        self.url = String::new();
        self.due = None;
        self.asking = false;
        self.info = None;
        self.covered = false;
        self.state = PreviewState::Idle;
    }

    /// The site has been asked.
    pub fn asked(&mut self)
        ensures
            final(self)@ == (Question { due: None, asking: true, ..old(self)@ }),
    {
        self.due = None;
        self.asking = true;
    }

    /// The site has answered.
    pub fn answer(&mut self, info: MediaInfo)
        ensures
            final(self)@ == answered(old(self)@, info@),
    {
        self.info = Some(info);
        self.state = PreviewState::Ready;
    }

    /// The question has ended; `answered` tells whether an answer came just now.
    pub fn end(&mut self, answered: bool)
        ensures
            final(self)@ == ended(old(self)@, answered),
    {
        self.asking = false;
        if self.state == PreviewState::Asking && self.info.is_none() && !answered {
            self.state = PreviewState::Failed;
        }
    }

    /// Takes the reports on the question. Without a question under way there is no one whose
    /// report could be taken; `disconnected` tells that no more will come.
    pub fn take_events(&mut self, reports: Vec<Event>, disconnected: bool) -> (r: Vec<Event>)
        ensures
            events::news(r@) == (if old(self)@.asking {
                events::news(reports@)
            } else {
                Seq::empty()
            }),
            final(self)@ == taken(old(self)@, events::news(reports@), disconnected),
    {
        if !self.asking {
            let none: Vec<Event> = Vec::new();
            assert(events::news(none@) =~= Seq::empty());
            return none;
        }
        if disconnected {
            let answered = has_answer(&reports);
            self.end(answered);
        }
        reports
    }

    /// What is to be done now.
    pub fn tick(&self, now: u64) -> (r: Tick)
        ensures
            r == tick_of(self@, now),
    {
        match self.due {
            None => Tick::Rest,
            Some(due) => if now < due {
                Tick::Wait(due - now)
            } else {
                Tick::Ask
            },
        }
    }

    /// Whether the preview is of what a request asks for.
    pub fn is_about(&self, request: Option<&Request>) -> (r: bool)
        ensures
            r == (request matches Some(q) && concerns(self@, q@)),
    {
        match request {
            Some(q) => text::same_text(self.url.as_str(), q.url.as_str()) && self.cookies
                == q.cookies && paths::options_are_same(&self.cookie_file, &q.cookie_file),
            None => false,
        }
    }

    /// The answer, where it is the answer to what a request asks for.
    pub fn answer_for(&self, request: &Request) -> (r: Option<MediaInfo>)
        ensures
            model::facts(r) == (if concerns(self@, request@) {
                self@.info
            } else {
                None
            }),
    {
        if !self.is_about(Some(request)) {
            return None;
        }
        match &self.info {
            Some(info) => Some(info.clone()),
            None => None,
        }
    }
}

/// Once the link or the login changes, nothing of the answer to the former question is left,
/// and no answer to it is waited for.
pub proof fn former_answer_is_forgotten(
    url: Seq<char>,
    cookies: CookieSource,
    cookie_file: Option<Split>,
    now: u64,
)
    ensures
        ({
            let q = aimed(url, cookies, cookie_file, now);
            &&& q.info is None
            &&& !q.asking
            &&& !q.covered
            &&& q.state == PreviewState::Idle || q.state == PreviewState::Asking
            &&& q.due is Some <==> is_link(url)
        }),
{
}

/// The site is asked no sooner than a pause after the last change.
pub proof fn site_is_asked_after_a_pause(
    url: Seq<char>,
    cookies: CookieSource,
    cookie_file: Option<Split>,
    changed: u64,
    now: u64,
)
    requires
        now < due_after(changed),
    ensures
        tick_of(aimed(url, cookies, cookie_file, changed), now) != Tick::Ask,
{
}

/// A link is an address of the web: "http://" or "https://" with something behind it.
pub proof fn link_is_an_address_of_the_web(rest: Seq<char>, s: Seq<char>)
    ensures
        rest.len() > 0 ==> is_link("http://"@ + rest) && is_link("https://"@ + rest),
        !is_link("http://"@) && !is_link("https://"@) && !is_link(Seq::empty()),
        s.len() > 0 && s[0] != 'h' ==> !is_link(s),
        is_link(s) ==> s.len() > 7 && (s.take(7) == "http://"@ || s.take(8) == "https://"@),
{
    reveal_strlit("http://");
    reveal_strlit("https://");
    let a = "http://"@ + rest;
    let b = "https://"@ + rest;
    assert(a.take(7) =~= "http://"@);
    assert(b.take(8) =~= "https://"@);
    assert("http://"@[0] == 'h' && "https://"@[0] == 'h');
    assert("https://"@[4] == 's' && "http://"@[4] == ':');
    if is_link("https://"@) {
        assert("https://"@.take(7)[4] == 's');
    }
    if s.len() > 0 && s[0] != 'h' {
        assert(s.len() > 7 ==> s.take(7)[0] == s[0]);
        assert(s.len() > 8 ==> s.take(8)[0] == s[0]);
    }
}

/// The site is asked 800 milliseconds after the last change of the link, about that link and
/// under that login; about anything but a link it is not asked.
pub proof fn site_is_asked_about_the_link(
    url: Seq<char>,
    cookies: CookieSource,
    cookie_file: Option<Split>,
    changed: u64,
    now: u64,
)
    requires
        changed < 0xFFFF_FFFF_FFFF_0000,
    ensures
        ({
            let q = aimed(url, cookies, cookie_file, changed);
            &&& q.cookies == cookies && q.cookie_file == cookie_file
            &&& is_link(url) ==> q.url == url && q.state == PreviewState::Asking
            &&& is_link(url) && now >= changed + 800 ==> tick_of(q, now) == Tick::Ask
            &&& is_link(url) && now < changed + 800 ==> tick_of(q, now) == Tick::Wait(
                (changed + 800 - now) as u64,
            )
            &&& !is_link(url) ==> q.url.len() == 0 && q.state == PreviewState::Idle && tick_of(
                q,
                now,
            ) == Tick::Rest
        }),
{
}

/// An answer is shown; a question that ends without one has failed; and a question that is to be
/// asked again is asked after the pause.
pub proof fn question_is_answered_or_fails(q: Question, facts: Facts, now: u64)
    ensures
        answered(q, facts).info == Some(facts) && answered(q, facts).state == PreviewState::Ready
            && answered(q, facts).url == q.url,
        q.state == PreviewState::Asking && q.info is None ==> ended(q, false).state
            == PreviewState::Failed,
        ended(q, true).state == q.state,
        q.state != PreviewState::Asking ==> ended(q, false).state == q.state,
        !ended(q, true).asking && !ended(q, false).asking && ended(q, false).info == q.info,
        q.url.len() == 0 ==> retried(q, now) == q,
        q.url.len() > 0 ==> retried(q, now).state == PreviewState::Asking && retried(q, now).due
            is Some && retried(q, now).url == q.url,
        q.url.len() > 0 && now < 0xFFFF_FFFF_FFFF_0000 ==> retried(q, now).due == Some(
            (now + 800) as u64,
        ),
{
}

/// An answer is for a request about the same link under the same login, and for no other.
pub proof fn answer_is_for_the_same_request(q: Question, w: Wish)
    ensures
        concerns(q, w) <==> q.url == w.url && q.cookies == w.cookies && (match (
            q.cookie_file,
            w.cookie_file,
        ) {
            (Some(a), Some(b)) => a.path == b.path || a.parts == b.parts,
            (None, None) => true,
            _ => false,
        }),
{
}

/// A picture can be drawn where it has four bytes for each of its points, and points at all.
pub proof fn picture_has_four_bytes_a_point(width: int, height: int)
    ensures
        width > 0 && height > 0 ==> is_drawable(width, height, 4 * (width * height)),
        width > 0 && height > 0 ==> !is_drawable(width, height, 4 * (width * height) + 1),
        !is_drawable(0, height, 0) && !is_drawable(width, 0, 0),
{
    assert(width * height * 4 == 4 * (width * height)) by (nonlinear_arith);
}

/// What a preview says is what it holds.
pub proof fn question_says_what_the_preview_holds(p: Preview)
    ensures
        p@.url == p.url@ && p@.cookies == p.cookies && p@.due == p.due && p@.asking == p.asking
            && p@.covered == p.covered && p@.state == p.state,
        p.cookie_file is Some <==> p@.cookie_file is Some,
        p.cookie_file is Some ==> p@.cookie_file->0.path == p.cookie_file->0.path@,
        p.info is Some <==> p@.info is Some,
        p.info is Some ==> p@.info->0 == p.info->0@,
{
}

/// Reports are taken only while a question is under way; once no more will come, it is over, and
/// it has failed where no answer was among them.
pub proof fn question_is_over_once_no_more_comes(q: Question, list: Seq<News>, i: int)
    ensures
        !q.asking ==> taken(q, list, true) == q,
        taken(q, list, false) == q,
        q.asking ==> !taken(q, list, true).asking,
        q.asking && q.state == PreviewState::Asking && q.info is None && (forall|k: int|
            0 <= k < list.len() ==> !((#[trigger] list[k]) is Info)) ==> taken(
            q,
            list,
            true,
        ).state == PreviewState::Failed,
        q.asking && 0 <= i < list.len() && list[i] is Info ==> taken(q, list, true).state
            == q.state,
{
    if 0 <= i < list.len() && list[i] is Info {
        assert(any_answer(list));
    }
}

} // verus!
