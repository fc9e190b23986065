//! What the buttons and lists of the download screen do.
use crate::cut::Section;
use crate::lines;
use crate::model::{CookieSource, DownloadId, Facts, Format, Language, Quality, SubLang};
use crate::panels::Outcome;
use crate::paths;
use crate::paths::{FilePath, Split};
use crate::preview;
use crate::queue;
use crate::queue::Line;
use crate::session;
use crate::session::{Desk, Launch, Phase, Session, Setup, Stand, State};
use crate::text;
use crate::tone::Tone;
use vstd::prelude::*;

verus! {

/// Whether the text in the field is marked as no link.
pub open spec fn is_wrong_link(field: Seq<char>) -> bool {
    let url = text::trimmed(field);
    url.len() > 0 && !preview::is_link(url)
}

pub fn link_is_wrong(field: &str) -> (r: bool)
    ensures
        r == is_wrong_link(field@),
{
    let url = text::trim(field);
    url.as_str().unicode_len() > 0 && !preview::looks_like_url(url.as_str())
}

/// The screen once a row, or all of them, were taken out of the queue. Where nothing waits any
/// more, a link is waited for again.
pub open spec fn thinned(d: Desk, id: Option<DownloadId>) -> Desk {
    let rows = queue::without(d.queue.rows, id);
    Desk {
        queue: Line { rows, next_id: d.queue.next_id },
        state: (if d.state is Queued && queue::first_waiting(rows, 0) is None {
            Phase::Idle
        } else {
            d.state
        }),
        ..d
    }
}

/// The screen once the link was put in the queue, which empties the field for the next one;
/// unchanged where it cannot be.
pub open spec fn added(d: Desk) -> Desk {
    if d.can_queue() {
        Desk { url: Seq::empty(), ..session::enqueued(d) }
    } else {
        d
    }
}

/// What the main button says, and whether it can be pressed: while a download is being made it
/// cancels that.
pub open spec fn main_words(d: Desk) -> (Seq<char>, bool) {
    if d.state is Running {
        ("Отмена"@, true)
    } else {
        ("Скачать"@, d.can_go())
    }
}

/// Whether a file has to be chosen before cookies can be taken from there.
pub open spec fn lacks_file(d: Desk, wanted: CookieSource) -> bool {
    wanted != d.cookies && wanted == CookieSource::File && d.cookie_file is None
}

/// The screen once another source of cookies was asked for; `picked` is the file that was
/// chosen where one was lacking. Without a file the source stays as it was.
pub open spec fn cookies_chosen(
    d: Desk,
    wanted: CookieSource,
    picked: Option<Split>,
    now: u64,
) -> Desk {
    if wanted == d.cookies {
        d
    } else if lacks_file(d, wanted) {
        session::retargeted(
            Desk {
                cookies: (if picked is Some {
                    wanted
                } else {
                    d.cookies
                }),
                cookie_file: picked,
                ..d
            },
            now,
        )
    } else {
        session::retargeted(Desk { cookies: wanted, ..d }, now)
    }
}

/// The screen once another file of cookies was chosen, or none.
pub open spec fn file_chosen(d: Desk, picked: Option<Split>, now: u64) -> Desk {
    session::retargeted(
        Desk {
            cookie_file: (if picked is Some {
                picked
            } else {
                d.cookie_file
            }),
            ..d
        },
        now,
    )
}

/// The screen once the bounds of the piece were changed: where they cannot be read, the whole
/// is meant, and nothing can be started.
pub open spec fn section_chosen(d: Desk, bounds: Option<Section>) -> Desk {
    match bounds {
        Some(section) => Desk { section, section_broken: false, ..d },
        None => Desk {
            section: Section { start: None, end: None },
            section_broken: true,
            ..d
        },
    }
}

/// What is known of the link in the field.
pub open spec fn known(d: Desk) -> Option<Facts> {
    d.preview.info
}

/// The screen once a format was chosen.
pub open spec fn format_chosen(d: Desk, format: Format) -> Desk {
    Desk {
        format,
        quality_note: lines::quality_words(format, d.quality, known(d)),
        sub_lang_label: lines::language_text(d.sub_lang, known(d)),
        ..d
    }
}

/// The screen once a quality was chosen.
pub open spec fn quality_chosen(d: Desk, quality: Quality) -> Desk {
    Desk { quality, quality_note: lines::quality_words(d.format, quality, known(d)), ..d }
}

/// The screen once a language of subtitles was chosen.
pub open spec fn language_chosen(d: Desk, lang: Language) -> Desk {
    Desk { sub_lang: lang, sub_lang_label: lines::language_text(lang, known(d)), ..d }
}

/// Whether the tools can be updated: neither while a download is being made nor while they are
/// being worked on.
pub open spec fn updatable(d: Desk) -> bool {
    d.state !is Running && !d.setup.busy()
}

/// Whether the site's subtitles are to be spoken of: only where they are asked for, can be
/// embedded, and the site has answered.
pub open spec fn speaks_of_subtitles(d: Desk) -> bool {
    d.format == Format::Mp4 && d.options.embed_subs && known(d) is Some
}

/// A message above the screen, or none.
pub open spec fn banner(text: Option<Seq<char>>, tone: Tone) -> Seq<(Seq<char>, Tone)> {
    match text {
        Some(t) => seq![(t, tone)],
        None => Seq::empty(),
    }
}

/// The messages above the screen, from the top down.
pub open spec fn banner_texts(d: Desk) -> Seq<(Seq<char>, Tone)> {
    let failed = match d.setup {
        Stand::Failed(why) => Some(why),
        _ => None,
    };
    banner(failed, Tone::Warning) + banner(d.warning, Tone::Warning) + banner(
        d.notice,
        Tone::Success,
    ) + banner(d.setup_error, Tone::Error)
}

/// What a list of messages says.
pub open spec fn outcomes(list: Seq<Outcome>) -> Seq<(Seq<char>, Tone)> {
    list.map_values(|o: Outcome| (o.text@, o.tone))
}

fn push_banner(list: &mut Vec<Outcome>, text: &Option<String>, tone: Tone)
    ensures
        outcomes(final(list)@) == outcomes(old(list)@) + banner(text::said(*text), tone),
{
    let ghost before = outcomes(list@);
    if let Some(t) = text {
        list.push(Outcome { text: t.clone(), tone });
        assert(outcomes(list@) =~= before + seq![(t@, tone)]);
    } else {
        assert(before + Seq::<(Seq<char>, Tone)>::empty() =~= before);
    }
}

impl Session {
    fn settle_queue(&mut self)
        ensures
            final(self)@ == (Desk {
                state: (if old(self)@.state is Queued && queue::first_waiting(
                    old(self)@.queue.rows,
                    0,
                ) is None {
                    Phase::Idle
                } else {
                    old(self)@.state
                }),
                ..old(self)@
            }),
            final(self).queue == old(self).queue,
    {
        if let State::Queued = self.state {
            if !self.queue.has_waiting() {
                self.state = State::Idle;
            }
        }
    }

    /// Takes a link out of the queue, unless it is being downloaded.
    pub fn remove_from_queue(&mut self, id: DownloadId)
        ensures
            final(self)@ == thinned(old(self)@, Some(id)),
            final(self).queue.summary_fits(),
            old(self).queue.lines_fit() ==> final(self).queue.lines_fit(),
    {
        self.queue.remove(id);
        self.settle_queue();
    }

    /// Takes all links out of the queue but the one that is being downloaded.
    pub fn clear_queue(&mut self)
        ensures
            final(self)@ == thinned(old(self)@, None),
            final(self).queue.summary_fits(),
            old(self).queue.lines_fit() ==> final(self).queue.lines_fit(),
    {
        self.queue.clear();
        self.settle_queue();
    }

    /// Puts the link in the field at the end of the queue and empties the field; tells whether
    /// that was done.
    pub fn add_link(&mut self) -> (r: bool)
        requires
            old(self).queue.summary_fits(),
        ensures
            r == old(self)@.can_queue(),
            final(self)@ == added(old(self)@),
            final(self).queue.summary_fits(),
            old(self).queue.lines_fit() ==> final(self).queue.lines_fit(),
    {
        if self.enqueue() {
            self.url = String::new();
            true
        } else {
            false
        }
    }

    /// The main button: cancels the download that is being made; without one, the link in the
    /// field goes to the end of the queue, and the queue goes on.
    pub fn press_main(&mut self) -> (r: Option<Launch>)
        requires
            old(self).queue.summary_fits(),
        ensures
            final(self)@ == (if old(self)@.state is Running {
                session::cancelled(old(self)@)
            } else {
                session::enqueued(old(self)@)
            }),
            session::is_launch(
                r,
                if old(self)@.state is Running {
                    None
                } else {
                    session::enqueued(old(self)@).next_row()
                },
            ),
            final(self).queue.summary_fits(),
            old(self).queue.lines_fit() ==> final(self).queue.lines_fit(),
    {
        if self.state.is_running() {
            self.cancel();
            None
        } else {
            self.start()
        }
    }

    /// The main button: what it says, and whether it can be pressed.
    pub fn main_button(&self) -> (r: (&'static str, bool))
        ensures
            (r.0@, r.1) == main_words(self@),
    {
        if self.state.is_running() {
            ("Отмена", true)
        } else {
            ("Скачать", self.can_start())
        }
    }

    /// Whether a file has to be chosen before cookies can be taken from there.
    pub fn needs_cookie_file(&self, wanted: CookieSource) -> (r: bool)
        ensures
            r == lacks_file(self@, wanted),
    {
        wanted != self.cookies && wanted == CookieSource::File && self.cookie_file.is_none()
    }

    /// Takes another source of cookies; `picked` is the file that was chosen where one was
    /// lacking.
    pub fn choose_cookies(&mut self, wanted: CookieSource, picked: Option<FilePath>, now: u64)
        ensures
            final(self)@ == cookies_chosen(old(self)@, wanted, paths::split_of(picked), now),
            final(self).queue == old(self).queue,
    {
        if wanted == self.cookies {
            return;
        }
        if self.needs_cookie_file(wanted) {
            if picked.is_some() {
                self.cookies = wanted;
            }
            self.cookie_file = picked;
        } else {
            self.cookies = wanted;
        }
        self.retarget_preview(now);
    }

    /// Takes another file of cookies, where one was chosen.
    pub fn choose_cookie_file(&mut self, picked: Option<FilePath>, now: u64)
        ensures
            final(self)@ == file_chosen(old(self)@, paths::split_of(picked), now),
            final(self).queue == old(self).queue,
    {
        if picked.is_some() {
            self.cookie_file = picked;
        }
        self.retarget_preview(now);
    }

    /// Takes the bounds of the piece; none where they cannot be read.
    pub fn choose_section(&mut self, bounds: Option<Section>)
        ensures
            final(self)@ == section_chosen(old(self)@, bounds),
            final(self).queue == old(self).queue,
    {
        match bounds {
            Some(section) => {
                self.section = section;
                self.section_broken = false;
            },
            None => {
                self.section = Section { start: None, end: None };
                self.section_broken = true;
            },
        }
    }

    pub fn choose_format(&mut self, format: Format)
        ensures
            final(self)@ == format_chosen(old(self)@, format),
            final(self).queue == old(self).queue,
    {
        self.format = format;
        self.quality_note = lines::quality_note(format, self.quality, &self.preview.info);
        self.sub_lang_label = lines::sub_lang_label(&self.sub_lang, &self.preview.info);
    }

    pub fn choose_quality(&mut self, quality: Quality)
        ensures
            final(self)@ == quality_chosen(old(self)@, quality),
            final(self).queue == old(self).queue,
    {
        self.quality = quality;
        self.quality_note = lines::quality_note(self.format, quality, &self.preview.info);
    }

    pub fn choose_language(&mut self, lang: SubLang)
        ensures
            final(self)@ == language_chosen(old(self)@, lang@),
            final(self).queue == old(self).queue,
    {
        self.sub_lang_label = lines::sub_lang_label(&lang, &self.preview.info);
        self.sub_lang = lang;
    }

    /// Whether the tools can be updated now.
    pub fn can_update(&self) -> (r: bool)
        ensures
            r == updatable(self@),
    {
        !self.state.is_running() && !self.setup.busy()
    }

    /// Whether the site's subtitles are to be spoken of.
    pub fn subtitles_matter(&self) -> (r: bool)
        ensures
            r == speaks_of_subtitles(self@),
    {
        self.format == Format::Mp4 && self.options.embed_subs && self.preview.info.is_some()
    }

    /// The messages above the screen, from the top down.
    pub fn banners(&self) -> (r: Vec<Outcome>)
        ensures
            outcomes(r@) == banner_texts(self@),
    {
        let mut list: Vec<Outcome> = Vec::new();
        let failed: Option<String> = match &self.setup {
            Setup::Failed(why) => Some(why.clone()),
            _ => None,
        };
        assert(outcomes(list@) =~= Seq::empty());
        assert(Seq::<(Seq<char>, Tone)>::empty() + banner(text::said(failed), Tone::Warning)
            =~= banner(text::said(failed), Tone::Warning));
        push_banner(&mut list, &failed, Tone::Warning);
        push_banner(&mut list, &self.warning, Tone::Warning);
        push_banner(&mut list, &self.notice, Tone::Success);
        push_banner(&mut list, &self.setup_error, Tone::Error);
        list
    }
}

/// Rows that stay keep their numbers apart, and at most one of them is being downloaded.
proof fn lemma_rows_stay_apart(line: Line, id: Option<DownloadId>)
    requires
        queue::numbered(line),
        queue::one_at_a_time(line.rows),
    ensures
        queue::numbered(
            Line { rows: queue::without(line.rows, id), next_id: line.next_id },
        ),
        queue::one_at_a_time(queue::without(line.rows, id)),
    decreases line.rows.len(),
{
    let rows = line.rows;
    if rows.len() > 0 {
        let shorter = rows.drop_last();
        let rest = queue::without(shorter, id);
        let all = queue::without(rows, id);
        assert forall|i: int| 0 <= i < shorter.len() implies #[trigger] shorter[i] == rows[i] by {}
        lemma_rows_stay_apart(Line { rows: shorter, next_id: line.next_id }, id);
        queue::taking_out_leaves_nothing_else(shorter, id);
        assert forall|i: int| 0 <= i < rest.len() implies (#[trigger] rest[i]).id
            != rows.last().id && !(rest[i].status is Running && rows.last().status is Running) by {
            let k = choose|k: int| 0 <= k < shorter.len() && shorter[k] == rest[i];
            assert(rows[k] == rest[i]);
            assert(rows[rows.len() - 1] == rows.last());
        }
        if queue::stays(rows.last(), id) {
            assert(all == rest.push(rows.last()));
            assert(rows[rows.len() - 1].id < line.next_id);
            assert forall|i: int| 0 <= i < all.len() implies (#[trigger] all[i]).id
                < line.next_id by {
                if i < rest.len() {
                    assert(all[i] == rest[i]);
                }
            }
            assert forall|i: int, j: int| 0 <= i < j < all.len() implies (#[trigger] all[i]).id
                != (#[trigger] all[j]).id by {
                assert(all[i] == rest[i]);
                if j < rest.len() {
                    assert(all[j] == rest[j]);
                }
            }
            assert forall|i: int, j: int|
                0 <= i < all.len() && 0 <= j < all.len() && (#[trigger] all[i]).status is Running
                    && (#[trigger] all[j]).status is Running implies i == j by {
                if i < rest.len() && j < rest.len() {
                    assert(all[i] == rest[i] && all[j] == rest[j]);
                } else if i < rest.len() {
                    assert(all[i] == rest[i]);
                } else if j < rest.len() {
                    assert(all[j] == rest[j]);
                }
            }
        }
    }
}

/// Taking links out of the queue stops nothing, and the screen keeps agreeing with the queue.
pub proof fn thinning_keeps_the_screen_steady(d: Desk, id: Option<DownloadId>)
    requires
        session::steady(d),
    ensures
        session::steady(thinned(d, id)),
        thinned(d, id).state is Running <==> d.state is Running,
        thinned(d, id).running_id() == d.running_id(),
{
    let rows = d.queue.rows;
    let after = queue::without(rows, id);
    lemma_rows_stay_apart(d.queue, id);
    queue::taking_out_leaves_nothing_else(rows, id);
    queue::lemma_first_running(rows, 0);
    queue::lemma_first_running(after, 0);
    if let Some(k) = queue::first_running(rows, 0) {
        queue::running_download_is_never_taken_out(rows, id, k);
        let j = choose|j: int| 0 <= j < after.len() && after[j] == rows[k];
        assert(after[j].status is Running);
        assert(queue::first_running(after, 0) == Some(j));
    } else if let Some(j) = queue::first_running(after, 0) {
        let k = choose|k: int| 0 <= k < rows.len() && rows[k] == after[j];
        assert(rows[k].status is Running);
    }
}

/// Without a file there are no cookies from a file: the source that needs one is taken only
/// together with it.
pub proof fn cookies_from_a_file_have_a_file(
    d: Desk,
    wanted: CookieSource,
    picked: Option<Split>,
    now: u64,
)
    requires
        d.cookies == CookieSource::File ==> d.cookie_file is Some,
    ensures
        ({
            let after = cookies_chosen(d, wanted, picked, now);
            after.cookies == CookieSource::File ==> after.cookie_file is Some
        }),
        ({
            let after = file_chosen(d, picked, now);
            after.cookies == CookieSource::File ==> after.cookie_file is Some
        }),
{
}

/// Bounds that cannot be read let nothing start from the field.
pub proof fn broken_bounds_stop_the_link(d: Desk)
    ensures
        !section_chosen(d, None).can_queue(),
        text::trimmed(d.url).len() > 0 ==> !section_chosen(d, None).can_go(),
{
}

/// A text is marked as no link where it is one neither of "http://" nor of "https://" with
/// something behind it; an empty field is not marked.
pub proof fn wrong_link_is_marked(s: Seq<char>)
    requires
        s.len() > 0 ==> !text::is_space(s[0]) && !text::is_space(s.last()),
    ensures
        s.len() == 0 ==> !is_wrong_link(s),
        s.len() > 0 && !preview::is_link(s) ==> is_wrong_link(s),
        preview::is_link(s) ==> !is_wrong_link(s),
{
    text::only_white_space_is_trimmed(Seq::empty(), s, Seq::empty());
    assert(Seq::empty() + s + Seq::empty() =~= s);
}

/// A link that was added empties the field for the next one, and is queued as it would be
/// without that; a link that cannot be queued stays where it is.
pub proof fn added_link_empties_the_field(d: Desk)
    ensures
        d.can_queue() ==> added(d).url.len() == 0 && added(d).queue == session::enqueued(d).queue
            && added(d).state == session::enqueued(d).state && added(d).queue.rows.len() > 0
            && added(d).queue.rows.last().request.url == text::trimmed(d.url),
        !d.can_queue() ==> added(d) == d,
{
}

/// The main button starts what can be started, and cancels while a download is being made.
pub proof fn main_button_starts_or_cancels(d: Desk)
    ensures
        d.state is Running ==> main_words(d) == ("Отмена"@, true),
        !(d.state is Running) ==> main_words(d) == ("Скачать"@, d.can_go()),
{
}

/// Rows that are taken out of the queue are gone, but for the one that is being downloaded; where
/// nothing waits any more, a link is waited for. Nothing else of the screen changes.
pub proof fn rows_taken_out_are_gone(d: Desk, id: DownloadId, i: int)
    requires
        0 <= i < d.queue.rows.len(),
    ensures
        d.queue.rows[i].id != id || d.queue.rows[i].status is Running ==> thinned(
            d,
            Some(id),
        ).queue.rows.contains(d.queue.rows[i]),
        d.queue.rows[i].id == id && !(d.queue.rows[i].status is Running) ==> !thinned(
            d,
            Some(id),
        ).queue.rows.contains(d.queue.rows[i]),
        d.queue.rows[i].status is Running <==> thinned(d, None).queue.rows.contains(
            d.queue.rows[i],
        ),
        thinned(d, None).queue.next_id == d.queue.next_id,
        !(d.state is Queued) ==> thinned(d, None).state == d.state,
        d.state is Queued ==> thinned(d, None).state == Phase::Idle,
        thinned(d, None).history == d.history && thinned(d, None).url == d.url && thinned(
            d,
            None,
        ).preview == d.preview,
{
    let rows = d.queue.rows;
    queue::running_download_is_never_taken_out(rows, Some(id), i);
    queue::running_download_is_never_taken_out(rows, None, i);
    queue::taking_out_leaves_nothing_else(rows, Some(id));
    queue::taking_out_leaves_nothing_else(rows, None);
    let one = queue::without(rows, Some(id));
    if one.contains(rows[i]) {
        let k = choose|k: int| 0 <= k < one.len() && one[k] == rows[i];
        assert(queue::stays(one[k], Some(id)));
    }
    let none = queue::without(rows, None);
    if none.contains(rows[i]) {
        let k = choose|k: int| 0 <= k < none.len() && none[k] == rows[i];
        assert(queue::stays(none[k], None));
    }
    queue::lemma_first_waiting(none, 0);
    if let Some(k) = queue::first_waiting(none, 0) {
        assert(queue::stays(none[k], None));
    }
}

/// Settings that are chosen are the settings: the piece, the format, the quality, the language,
/// the source of cookies and their file; and each changes no other.
pub proof fn chosen_settings_are_taken(
    d: Desk,
    bounds: Section,
    format: Format,
    quality: Quality,
    lang: Language,
    wanted: CookieSource,
    file: Split,
    now: u64,
)
    ensures
        section_chosen(d, Some(bounds)) == (Desk { section: bounds, section_broken: false, ..d }),
        section_chosen(d, None).section_broken && section_chosen(d, None).section.start is None
            && section_chosen(d, None).section.end is None,
        format_chosen(d, format).format == format && format_chosen(d, format).quality == d.quality
            && format_chosen(d, format).queue == d.queue && format_chosen(d, format).section
            == d.section,
        quality_chosen(d, quality).quality == quality && quality_chosen(d, quality).format
            == d.format && quality_chosen(d, quality).queue == d.queue,
        quality_chosen(d, quality).quality_note == lines::quality_words(
            d.format,
            quality,
            d.preview.info,
        ),
        format_chosen(d, format).quality_note == lines::quality_words(
            format,
            d.quality,
            d.preview.info,
        ),
        language_chosen(d, lang).sub_lang == lang && language_chosen(d, lang).sub_lang_label
            == lines::language_text(lang, d.preview.info),
        wanted != CookieSource::File ==> cookies_chosen(d, wanted, None, now).cookies == wanted,
        cookies_chosen(d, CookieSource::File, Some(file), now).cookies == CookieSource::File,
        d.cookies != CookieSource::File && d.cookie_file is None ==> cookies_chosen(
            d,
            CookieSource::File,
            Some(file),
            now,
        ).cookie_file == Some(file) && cookies_chosen(d, CookieSource::File, None, now).cookies
            == d.cookies,
        d.cookie_file is Some ==> cookies_chosen(d, wanted, None, now).cookie_file == d.cookie_file
            && cookies_chosen(d, wanted, None, now).cookies == wanted,
        file_chosen(d, Some(file), now).cookie_file == Some(file) && file_chosen(
            d,
            Some(file),
            now,
        ).cookies == d.cookies,
        file_chosen(d, None, now).cookie_file == d.cookie_file,
        cookies_chosen(d, wanted, None, now).queue == d.queue && file_chosen(
            d,
            Some(file),
            now,
        ).queue == d.queue,
{
}

/// The tools can be updated while nothing is being downloaded and they are not being worked on.
pub proof fn tools_can_be_updated_in_peace(d: Desk)
    ensures
        updatable(d) <==> !(d.state is Running) && !(d.setup is Installing) && !(d.setup
            is Updating),
        speaks_of_subtitles(d) <==> d.format == Format::Mp4 && d.options.embed_subs
            && d.preview.info is Some,
{
}

/// The messages above the screen: why the tools could not be installed, a warning, a notice, and
/// why nothing can be downloaded, from the top down and each in its colour.
pub proof fn messages_stand_in_their_order(d: Desk)
    ensures
        ({
            let failed = d.setup is Failed;
            let warned = d.warning is Some;
            let noticed = d.notice is Some;
            let stopped = d.setup_error is Some;
            let one = |b: bool|
                if b {
                    1int
                } else {
                    0
                };
            let all = banner_texts(d);
            &&& all.len() == one(failed) + one(warned) + one(noticed) + one(stopped)
            &&& failed ==> all[0] == (d.setup->Failed_0, Tone::Warning)
            &&& warned ==> all[one(failed)] == (d.warning->0, Tone::Warning)
            &&& noticed ==> all[one(failed) + one(warned)] == (d.notice->0, Tone::Success)
            &&& stopped ==> all[one(failed) + one(warned) + one(noticed)] == (
                d.setup_error->0,
                Tone::Error,
            )
        }),
{
}

} // verus!
