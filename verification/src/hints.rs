//! What is said beside the buttons and lists.
use crate::model::CookieSource;
use crate::preview::PreviewState;
use crate::queue;
use crate::session::{Component, Desk, Phase, Session, Setup, Stand, State};
use crate::text;
use crate::tone::Tone;
use vstd::prelude::*;

verus! {

/// Why the main button cannot be pressed.
pub open spec fn start_words(d: Desk) -> Seq<char> {
    if d.setup_error is Some {
        "Сначала нужен yt-dlp."@
    } else if d.section_broken {
        "Поправьте границы фрагмента."@
    } else if d.out_dir is None {
        "Сначала выберите папку сохранения."@
    } else {
        "Вставьте ссылку или поставьте что-нибудь в очередь."@
    }
}

/// Why the link cannot be put in the queue.
pub open spec fn queue_words(d: Desk) -> Seq<char> {
    if queue::is_full(d.queue.rows) {
        "Очередь заполнена: дождитесь, пока что-нибудь скачается."@
    } else if text::trimmed(d.url).len() == 0 {
        "Вставьте ссылку — она встанет в конец очереди."@
    } else if d.section_broken {
        "Поправьте границы фрагмента."@
    } else if d.out_dir is None {
        "Сначала выберите папку сохранения."@
    } else {
        "Сначала нужен yt-dlp."@
    }
}

/// What is said of the piece that is cut out. Where its bounds cannot be read, the reason is
/// shown in place of this.
pub open spec fn section_words(d: Desk) -> Option<(Seq<char>, Tone)> {
    if d.section_broken {
        None
    } else if d.section.start is None && d.section.end is None {
        Some(
            (
                "Пусто — ролик скачается целиком. Время можно писать как «90», «1:30» или «1:02:03»."@,
                Tone::Muted,
            ),
        )
    } else if d.ffmpeg_missing {
        Some(("Вырезать нечем: ffmpeg не найден. Ролик скачается целиком."@, Tone::Warning))
    } else {
        Some(
            (
                "Фрагмент вырезает ffmpeg прямо по ходу загрузки: она идёт заметно медленнее обычной, а проценты и скорость при этом не показываются. У MP4 начало сдвигается к ближайшему ключевому кадру — файл может начаться на секунду-другую раньше запрошенного."@,
                Tone::Muted,
            ),
        )
    }
}

/// What is said where something is to be embedded and there is nothing to do it with.
pub open spec fn embed_words(d: Desk) -> Option<Seq<char>> {
    if d.ffmpeg_missing && (d.options.embed_subs || d.options.embed_thumbnail
        || d.options.embed_metadata) {
        Some(
            "Вшивать нечем: ffmpeg не найден. Файл скачается, но без метаданных, обложки и субтитров."@,
        )
    } else {
        None
    }
}

/// What is said below the state; nothing where there is more to show than words.
pub open spec fn state_words(state: Phase) -> Option<Seq<char>> {
    match state {
        Phase::Idle => Some("Вставьте ссылку и нажмите «Скачать»."@),
        Phase::Queued => Some(
            "Ссылки ждут в очереди. Нажмите «Скачать» — они пойдут по одной, сверху вниз."@,
        ),
        Phase::Cancelled => Some("Загрузка отменена."@),
        _ => None,
    }
}

/// What is said below the link; nothing where there is nothing to say, or an answer to show.
pub open spec fn preview_words(state: PreviewState) -> Option<Seq<char>> {
    match state {
        PreviewState::Asking => Some("Смотрю, что это за ролик…"@),
        PreviewState::Failed => Some(
            "Что это за ролик, выяснить не вышло: сайт не ответил или он незнаком yt-dlp. Скачать всё равно можно — попробуйте."@,
        ),
        _ => None,
    }
}

/// What is said of a source of cookies.
pub open spec fn cookie_words(source: CookieSource) -> (Seq<char>, Tone) {
    match source {
        CookieSource::Off => (
            "Для возрастных, приватных и «подтвердите, что вы не робот» роликов: Savio возьмёт ваш вход на сайт из браузера или из файла. Обычные ссылки скачиваются и без этого."@,
            Tone::Muted,
        ),
        CookieSource::File => (
            "Нужен файл формата Netscape — такой выгружает расширение браузера вроде «Get cookies.txt». После загрузки yt-dlp допишет в него свежие cookies. И то же, что с браузером: у YouTube cookies чаще мешают — перестало скачиваться, верните «Не использовать»."@,
            Tone::Warning,
        ),
        _ => (
            "Закройте браузер перед загрузкой: пока он открыт, файл cookies занят и не читается. И учтите: у YouTube cookies чаще мешают — сайт отвечает пустым списком дорожек. Перестало скачиваться — верните «Не использовать»."@,
            Tone::Warning,
        ),
    }
}

/// The heading and the text shown while the tools are being worked on.
pub open spec fn setup_words(setup: Stand) -> (Seq<char>, Seq<char>) {
    match setup {
        Stand::Updating(Component::Ytdlp) => (
            "Обновление движка"@,
            "Savio скачивает свежий yt-dlp. Это занимает несколько секунд."@,
        ),
        Stand::Updating(Component::Ffmpeg) => (
            "Обновление ffmpeg"@,
            "Savio скачивает свежую сборку ffmpeg целиком — это больше сотни мегабайт, на медленном интернете надолго."@,
        ),
        _ => (
            "Установка зависимостей"@,
            "Savio догружает недостающие программы. Это нужно только при первом запуске — пожалуйста, подождите."@,
        ),
    }
}

/// What is said of the subtitles that a site offers.
pub open spec fn subtitle_words(allow_auto: bool) -> Seq<char> {
    if allow_auto {
        "Автоматические субтитры распознаёт робот: опечатки, слипшиеся слова и пропущенные знаки препинания там обычное дело. «Язык ролика» берёт распознанный оригинал, любой другой язык — машинный перевод с него, и он ещё хуже."@
    } else {
        "Свои субтитры выкладывает автор ролика, и они точные — но есть далеко не у всех. Список языков заполняется сам, через секунду после того, как вы вставите ссылку."@
    }
}

/// What an optional text says.
pub open spec fn words(text: Option<&'static str>) -> Option<Seq<char>> {
    match text {
        Some(t) => Some(t@),
        None => None,
    }
}

impl Session {
    /// Why the main button cannot be pressed.
    pub fn start_hint(&self) -> (r: &'static str)
        ensures
            r@ == start_words(self@),
    {
        if self.setup_error.is_some() {
            "Сначала нужен yt-dlp."
        } else if self.section_broken {
            "Поправьте границы фрагмента."
        } else if self.out_dir.is_none() {
            "Сначала выберите папку сохранения."
        } else {
            "Вставьте ссылку или поставьте что-нибудь в очередь."
        }
    }

    /// Why the link cannot be put in the queue.
    pub fn queue_hint(&self) -> (r: &'static str)
        requires
            self.queue.summary_fits(),
        ensures
            r@ == queue_words(self@),
    {
        let url = text::trim(self.url.as_str());
        if self.queue.full {
            "Очередь заполнена: дождитесь, пока что-нибудь скачается."
        } else if url.as_str().unicode_len() == 0 {
            "Вставьте ссылку — она встанет в конец очереди."
        } else if self.section_broken {
            "Поправьте границы фрагмента."
        } else if self.out_dir.is_none() {
            "Сначала выберите папку сохранения."
        } else {
            "Сначала нужен yt-dlp."
        }
    }

    /// What is said of the piece that is cut out.
    pub fn section_note(&self) -> (r: Option<(&'static str, Tone)>)
        ensures
            match r {
                Some((t, tone)) => section_words(self@) == Some((t@, tone)),
                None => section_words(self@) is None,
            },
    {
        if self.section_broken {
            None
        } else if !self.section.any() {
            Some(
                (
                    "Пусто — ролик скачается целиком. Время можно писать как «90», «1:30» или «1:02:03».",
                    Tone::Muted,
                ),
            )
        } else if self.ffmpeg_missing {
            Some(("Вырезать нечем: ffmpeg не найден. Ролик скачается целиком.", Tone::Warning))
        } else {
            Some(
                (
                    "Фрагмент вырезает ffmpeg прямо по ходу загрузки: она идёт заметно медленнее обычной, а проценты и скорость при этом не показываются. У MP4 начало сдвигается к ближайшему ключевому кадру — файл может начаться на секунду-другую раньше запрошенного.",
                    Tone::Muted,
                ),
            )
        }
    }

    /// What is said where something is to be embedded and there is nothing to do it with.
    pub fn embed_note(&self) -> (r: Option<&'static str>)
        ensures
            words(r) == embed_words(self@),
    {
        if self.ffmpeg_missing && (self.options.embed_subs || self.options.embed_thumbnail
            || self.options.embed_metadata) {
            Some(
                "Вшивать нечем: ffmpeg не найден. Файл скачается, но без метаданных, обложки и субтитров.",
            )
        } else {
            None
        }
    }
}

impl State {
    /// What is said below the state.
    pub fn note(&self) -> (r: Option<&'static str>)
        ensures
            words(r) == state_words(self@),
    {
        match self {
            State::Idle => Some("Вставьте ссылку и нажмите «Скачать»."),
            State::Queued => Some(
                "Ссылки ждут в очереди. Нажмите «Скачать» — они пойдут по одной, сверху вниз.",
            ),
            State::Cancelled => Some("Загрузка отменена."),
            _ => None,
        }
    }
}

impl PreviewState {
    /// What is said below the link.
    pub fn note(self) -> (r: Option<&'static str>)
        ensures
            words(r) == preview_words(self),
    {
        match self {
            PreviewState::Asking => Some("Смотрю, что это за ролик…"),
            PreviewState::Failed => Some(
                "Что это за ролик, выяснить не вышло: сайт не ответил или он незнаком yt-dlp. Скачать всё равно можно — попробуйте.",
            ),
            _ => None,
        }
    }
}

impl CookieSource {
    /// What is said of this source.
    pub fn note(self) -> (r: (&'static str, Tone))
        ensures
            (r.0@, r.1) == cookie_words(self),
    {
        match self {
            CookieSource::Off => (
                "Для возрастных, приватных и «подтвердите, что вы не робот» роликов: Savio возьмёт ваш вход на сайт из браузера или из файла. Обычные ссылки скачиваются и без этого.",
                Tone::Muted,
            ),
            CookieSource::File => (
                "Нужен файл формата Netscape — такой выгружает расширение браузера вроде «Get cookies.txt». После загрузки yt-dlp допишет в него свежие cookies. И то же, что с браузером: у YouTube cookies чаще мешают — перестало скачиваться, верните «Не использовать».",
                Tone::Warning,
            ),
            _ => (
                "Закройте браузер перед загрузкой: пока он открыт, файл cookies занят и не читается. И учтите: у YouTube cookies чаще мешают — сайт отвечает пустым списком дорожек. Перестало скачиваться — верните «Не использовать».",
                Tone::Warning,
            ),
        }
    }
}

impl Setup {
    /// The heading and the text shown while the tools are being worked on.
    pub fn headline(&self) -> (r: (&'static str, &'static str))
        ensures
            (r.0@, r.1@) == setup_words(self@),
    {
        match self {
            Setup::Updating(Component::Ytdlp) => (
                "Обновление движка",
                "Savio скачивает свежий yt-dlp. Это занимает несколько секунд.",
            ),
            Setup::Updating(Component::Ffmpeg) => (
                "Обновление ffmpeg",
                "Savio скачивает свежую сборку ffmpeg целиком — это больше сотни мегабайт, на медленном интернете надолго.",
            ),
            _ => (
                "Установка зависимостей",
                "Savio догружает недостающие программы. Это нужно только при первом запуске — пожалуйста, подождите.",
            ),
        }
    }
}

/// What is said of the subtitles that a site offers.
pub fn subtitle_hint(allow_auto: bool) -> (r: &'static str)
    ensures
        r@ == subtitle_words(allow_auto),
{
    if allow_auto {
        "Автоматические субтитры распознаёт робот: опечатки, слипшиеся слова и пропущенные знаки препинания там обычное дело. «Язык ролика» берёт распознанный оригинал, любой другой язык — машинный перевод с него, и он ещё хуже."
    } else {
        "Свои субтитры выкладывает автор ролика, и они точные — но есть далеко не у всех. Список языков заполняется сам, через секунду после того, как вы вставите ссылку."
    }
}

/// Where the link cannot be put in the queue, the reason that is given is one of those that
/// hold: the tool is named only where it is what is lacking.
pub proof fn missing_tool_is_named_only_where_it_is_missing(d: Desk)
    requires
        !d.can_queue(),
        !queue::is_full(d.queue.rows),
        text::trimmed(d.url).len() > 0,
        !d.section_broken,
        d.out_dir is Some,
    ensures
        queue_words(d) == "Сначала нужен yt-dlp."@,
        d.setup_error is Some,
{
}

/// The hint at a button that cannot be pressed names what is missing, the first that is.
pub proof fn hints_name_what_is_missing(d: Desk)
    ensures
        d.setup_error is Some ==> start_words(d) == "Сначала нужен yt-dlp."@,
        d.setup_error is None && d.section_broken ==> start_words(d)
            == "Поправьте границы фрагмента."@,
        d.setup_error is None && !d.section_broken && d.out_dir is None ==> start_words(d)
            == "Сначала выберите папку сохранения."@,
        d.setup_error is None && !d.section_broken && d.out_dir is Some ==> start_words(d)
            == "Вставьте ссылку или поставьте что-нибудь в очередь."@,
        queue::is_full(d.queue.rows) ==> queue_words(d)
            == "Очередь заполнена: дождитесь, пока что-нибудь скачается."@,
        !queue::is_full(d.queue.rows) && text::trimmed(d.url).len() == 0 ==> queue_words(d)
            == "Вставьте ссылку — она встанет в конец очереди."@,
        !queue::is_full(d.queue.rows) && text::trimmed(d.url).len() > 0 && d.section_broken
            ==> queue_words(d) == "Поправьте границы фрагмента."@,
        !queue::is_full(d.queue.rows) && text::trimmed(d.url).len() > 0 && !d.section_broken
            && d.out_dir is None ==> queue_words(d) == "Сначала выберите папку сохранения."@,
        !queue::is_full(d.queue.rows) && text::trimmed(d.url).len() > 0 && !d.section_broken
            && d.out_dir is Some ==> queue_words(d) == "Сначала нужен yt-dlp."@,
{
}

/// What is said of the piece goes by whether there is one and whether it can be cut; what is said
/// of embedding by whether it can be done.
pub proof fn notes_go_by_what_can_be_done(d: Desk)
    ensures
        d.section_broken ==> section_words(d) is None,
        !d.section_broken && d.section.start is None && d.section.end is None ==> (section_words(
            d,
        ) matches Some((_, tone)) && tone == Tone::Muted),
        !d.section_broken && (d.section.start is Some || d.section.end is Some) && d.ffmpeg_missing
            ==> section_words(d) == Some(
            ("Вырезать нечем: ffmpeg не найден. Ролик скачается целиком."@, Tone::Warning),
        ),
        !d.section_broken && (d.section.start is Some || d.section.end is Some)
            && !d.ffmpeg_missing ==> (section_words(d) matches Some((_, tone)) && tone
            == Tone::Muted),
        embed_words(d) is Some <==> d.ffmpeg_missing && (d.options.embed_subs
            || d.options.embed_thumbnail || d.options.embed_metadata),
        state_words(Phase::Idle) == Some("Вставьте ссылку и нажмите «Скачать»."@),
        state_words(Phase::Cancelled) == Some("Загрузка отменена."@),
        state_words(Phase::Queued) is Some && state_words(Phase::Running) is None,
        preview_words(PreviewState::Asking) == Some("Смотрю, что это за ролик…"@),
        preview_words(PreviewState::Failed) is Some,
        preview_words(PreviewState::Idle) is None && preview_words(PreviewState::Ready) is None,
        cookie_words(CookieSource::Off).1 == Tone::Muted && cookie_words(CookieSource::File).1
            == Tone::Warning && cookie_words(CookieSource::Firefox).1 == Tone::Warning,
        setup_words(Stand::Updating(Component::Ytdlp)).0 == "Обновление движка"@,
        setup_words(Stand::Updating(Component::Ffmpeg)).0 == "Обновление ffmpeg"@,
        setup_words(Stand::Installing).0 == "Установка зависимостей"@,
{
}

} // verus!
