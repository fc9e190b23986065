//! Where the outside tools are looked for.
//!
//! Next to the program comes first (a portable copy), then the search path (a copy of the
//! system), then the folder of the program's own data (what was fetched on the first run).
//! The own folder comes last on purpose: where the user has a tool already, that one is used.
use crate::text;
use vstd::prelude::*;

verus! {

/// The platforms whose conventions for user data differ.
#[derive(Debug, Clone, Copy, PartialEq, Eq, Structural)]
pub enum Platform {
    Windows,
    MacOs,
    Unix,
}

/// The variables of the environment that tell where user data goes.
#[derive(Debug)]
pub struct Environment {
    pub local_app_data: Option<String>,
    pub user_profile: Option<String>,
    pub home: Option<String>,
    pub xdg_data_home: Option<String>,
}

/// A folder: where it starts, and the steps that lead down from there.
#[derive(Debug)]
pub struct Folder {
    pub base: String,
    pub steps: Vec<String>,
}

/// What a [`Folder`] says.
#[verifier::ext_equal]
pub struct Location {
    pub base: Seq<char>,
    pub steps: Seq<Seq<char>>,
}

impl View for Folder {
    type V = Location;

    open spec fn view(&self) -> Location {
        Location { base: self.base@, steps: text::views(self.steps@) }
    }
}

/// The location of an optional folder.
pub open spec fn location(folder: Option<Folder>) -> Option<Location> {
    match folder {
        Some(f) => Some(f@),
        None => None,
    }
}

/// A variable that is set to something.
pub open spec fn filled(value: Option<String>) -> Option<Seq<char>> {
    match value {
        Some(v) => if v@.len() > 0 {
            Some(v@)
        } else {
            None
        },
        None => None,
    }
}

/// The folder of the program in the user's data, if the environment tells of one.
///
/// On Windows that is the local data, not the roaming one. Elsewhere a variable that is
/// empty or holds no absolute path does not count.
pub open spec fn app_location(platform: Platform, env: Environment) -> Option<Location> {
    match platform {
        Platform::Windows => match filled(env.local_app_data) {
            Some(base) => Some(Location { base, steps: seq!["Savio"@] }),
            None => match filled(env.user_profile) {
                Some(base) => Some(
                    Location { base, steps: seq!["AppData"@, "Local"@, "Savio"@] },
                ),
                None => None,
            },
        },
        Platform::MacOs => match filled(env.home) {
            Some(base) => Some(
                Location { base, steps: seq!["Library"@, "Application Support"@, "Savio"@] },
            ),
            None => None,
        },
        Platform::Unix => match filled(env.xdg_data_home) {
            Some(base) if base[0] == '/' => Some(Location { base, steps: seq!["savio"@] }),
            _ => match filled(env.home) {
                Some(base) => Some(
                    Location { base, steps: seq![".local"@, "share"@, "savio"@] },
                ),
                None => None,
            },
        },
    }
}

fn filled_value(value: &Option<String>) -> (r: Option<String>)
    ensures
        text::said(r) == filled(*value),
{
    match value {
        Some(v) => if v.as_str().is_empty() {
            None
        } else {
            Some(v.clone())
        },
        None => None,
    }
}

fn folder_1(base: String, a: &str) -> (r: Folder)
    ensures
        r@ == (Location { base: base@, steps: seq![a@] }),
{
    let mut steps: Vec<String> = Vec::new();
    steps.push(a.to_owned());
    assert(text::views(steps@) =~= seq![a@]);
    Folder { base, steps }
}

fn folder_3(base: String, a: &str, b: &str, c: &str) -> (r: Folder)
    ensures
        r@ == (Location { base: base@, steps: seq![a@, b@, c@] }),
{
    let mut steps: Vec<String> = Vec::new();
    steps.push(a.to_owned());
    steps.push(b.to_owned());
    steps.push(c.to_owned());
    assert(text::views(steps@) =~= seq![a@, b@, c@]);
    Folder { base, steps }
}

pub fn app_dir(platform: Platform, env: &Environment) -> (r: Option<Folder>)
    ensures
        location(r) == app_location(platform, *env),
{
    match platform {
        Platform::Windows => {
            if let Some(base) = filled_value(&env.local_app_data) {
                return Some(folder_1(base, "Savio"));
            }
            match filled_value(&env.user_profile) {
                Some(base) => Some(folder_3(base, "AppData", "Local", "Savio")),
                None => None,
            }
        },
        Platform::MacOs => match filled_value(&env.home) {
            Some(base) => Some(folder_3(base, "Library", "Application Support", "Savio")),
            None => None,
        },
        Platform::Unix => {
            if let Some(base) = filled_value(&env.xdg_data_home) {
                if base.as_str().get_char(0) == '/' {
                    return Some(folder_1(base, "savio"));
                }
            }
            match filled_value(&env.home) {
                Some(base) => Some(folder_3(base, ".local", "share", "savio")),
                None => None,
            }
        },
    }
}

/// The folder of the fetched tools: a subfolder of the program's own.
pub open spec fn data_location(platform: Platform, env: Environment) -> Option<Location> {
    match app_location(platform, env) {
        Some(app) => Some(Location { base: app.base, steps: app.steps.push("bin"@) }),
        None => None,
    }
}

pub fn data_dir(platform: Platform, env: &Environment) -> (r: Option<Folder>)
    ensures
        location(r) == data_location(platform, *env),
{
    match app_dir(platform, env) {
        Some(mut app) => {
            let ghost steps = text::views(app.steps@);
            app.steps.push("bin".to_owned());
            assert(text::views(app.steps@) =~= steps.push("bin"@));
            Some(app)
        },
        None => None,
    }
}

/// The tools live in a subfolder "bin" of the program's folder, wherever that is.
pub proof fn tools_live_under_the_program_folder(platform: Platform, env: Environment)
    ensures
        data_location(platform, env) is Some <==> app_location(platform, env) is Some,
        data_location(platform, env) matches Some(data) ==> {
            &&& data.base == app_location(platform, env)->0.base
            &&& data.steps.last() == "bin"@
            &&& data.steps.drop_last() == app_location(platform, env)->0.steps
        },
{
    if let Some(app) = app_location(platform, env) {
        assert(app.steps.push("bin"@).drop_last() =~= app.steps);
    }
}

/// Where a tool was found. Only an own copy may be replaced.
#[derive(Clone, Copy, PartialEq, Eq, Debug, Structural)]
pub enum Origin {
    /// Next to the program.
    Portable,
    /// On the search path.
    System,
    /// In the folder of the program's own data.
    Owned,
}

/// A place where a tool may stand, and whether a file is there.
#[derive(Debug)]
pub struct Candidate {
    pub path: String,
    pub is_file: bool,
}

/// The places of one tool, in the order in which they are tried.
#[derive(Debug)]
pub struct Search {
    /// Next to the program.
    pub portable: Option<Candidate>,
    /// On the search path, in its order.
    pub system: Vec<Candidate>,
    /// In the folder of the program's own data.
    pub owned: Option<Candidate>,
}

/// The first of the candidates `i..` that is there.
pub open spec fn first_file(list: Seq<Candidate>, i: int) -> Option<Seq<char>>
    decreases list.len() - i,
{
    if i < 0 || i >= list.len() {
        None
    } else if list[i].is_file {
        Some(list[i].path@)
    } else {
        first_file(list, i + 1)
    }
}

/// The candidate itself, where it is there.
pub open spec fn if_file(c: Option<Candidate>) -> Option<Seq<char>> {
    match c {
        Some(c) => if c.is_file {
            Some(c.path@)
        } else {
            None
        },
        None => None,
    }
}

/// The tool that is used: the portable copy, else the first on the search path, else the own
/// copy.
pub open spec fn chosen(search: Search) -> Option<(Seq<char>, Origin)> {
    if let Some(path) = if_file(search.portable) {
        Some((path, Origin::Portable))
    } else if let Some(path) = first_file(search.system@, 0) {
        Some((path, Origin::System))
    } else if let Some(path) = if_file(search.owned) {
        Some((path, Origin::Owned))
    } else {
        None
    }
}

/// The path of the tool that is used.
pub open spec fn chosen_path(search: Search) -> Option<Seq<char>> {
    match chosen(search) {
        Some((path, _)) => Some(path),
        None => None,
    }
}

fn file_there(c: &Option<Candidate>) -> (r: Option<String>)
    ensures
        text::said(r) == if_file(*c),
{
    match c {
        Some(c) => if c.is_file {
            Some(c.path.clone())
        } else {
            None
        },
        None => None,
    }
}

fn first_there(list: &Vec<Candidate>) -> (r: Option<String>)
    ensures
        text::said(r) == first_file(list@, 0),
{
    let mut i: usize = 0;
    while i < list.len()
        invariant
            i <= list@.len(),
            first_file(list@, 0) == first_file(list@, i as int),
        decreases list@.len() - i,
    {
        if list[i].is_file {
            return Some(list[i].path.clone());
        }
        i += 1;
    }
    None
}

/// What a found tool says.
pub open spec fn found(r: Option<(String, Origin)>) -> Option<(Seq<char>, Origin)> {
    match r {
        Some((path, origin)) => Some((path@, origin)),
        None => None,
    }
}

/// Finds a tool and tells where it comes from.
pub fn locate_with_origin(search: &Search) -> (r: Option<(String, Origin)>)
    ensures
        found(r) == chosen(*search),
{
    if let Some(path) = file_there(&search.portable) {
        return Some((path, Origin::Portable));
    }
    if let Some(path) = first_there(&search.system) {
        return Some((path, Origin::System));
    }
    match file_there(&search.owned) {
        Some(path) => Some((path, Origin::Owned)),
        None => None,
    }
}

/// Finds a tool.
pub fn locate(search: &Search) -> (r: Option<String>)
    ensures
        text::said(r) == chosen_path(*search),
{
    match locate_with_origin(search) {
        Some((path, _)) => Some(path),
        None => None,
    }
}

/// A copy is used only where none of those tried before it is there; the own copy, which
/// alone may be replaced, is the last resort.
pub proof fn own_copy_is_the_last_resort(search: Search)
    ensures
        chosen(search) matches Some((_, Origin::Owned)) ==> {
            &&& if_file(search.portable) is None
            &&& forall|i: int|
                0 <= i < search.system@.len() ==> !(#[trigger] search.system@[i]).is_file
        },
        chosen(search) matches Some((_, Origin::System)) ==> if_file(search.portable) is None,
{
    lemma_first_file(search.system@, 0);
}

proof fn lemma_first_file(list: Seq<Candidate>, i: int)
    requires
        0 <= i,
    ensures
        first_file(list, i) is None ==> forall|k: int|
            i <= k < list.len() ==> !(#[trigger] list[k]).is_file,
    decreases list.len() - i,
{
    if i < list.len() && !list[i].is_file {
        lemma_first_file(list, i + 1);
    }
}

/// The tools that were found. Without yt-dlp nothing works; the lack of another is told to
/// the user and is no reason not to start.
#[derive(Debug)]
pub struct Tools {
    pub ytdlp: String,
    pub ffmpeg: Option<String>,
    pub ffprobe: Option<String>,
}

/// What is told where yt-dlp is missing.
pub open spec fn missing_text(name: Seq<char>) -> Seq<char> {
    "Не найден "@ + name
        + ". Положите его рядом с Savio или установите так, чтобы он был доступен в PATH."@
}

/// Looks for the three tools; `ytdlp_name` is the file that yt-dlp is looked for under.
pub fn discover(ytdlp_name: &str, ytdlp: &Search, ffmpeg: &Search, ffprobe: &Search) -> (r: Result<
    Tools,
    String,
>)
    ensures
        match r {
            Ok(tools) => {
                &&& chosen_path(*ytdlp) == Some(tools.ytdlp@)
                &&& text::said(tools.ffmpeg) == chosen_path(*ffmpeg)
                &&& text::said(tools.ffprobe) == chosen_path(*ffprobe)
            },
            Err(e) => chosen_path(*ytdlp) is None && e@ == missing_text(ytdlp_name@),
        },
{
    match locate(ytdlp) {
        Some(path) => Ok(
            Tools { ytdlp: path, ffmpeg: locate(ffmpeg), ffprobe: locate(ffprobe) },
        ),
        None => {
            let mut why = "Не найден ".to_owned();
            why.append(ytdlp_name);
            why.append(
                ". Положите его рядом с Savio или установите так, чтобы он был доступен в PATH.",
            );
            Err(why)
        },
    }
}

/// Where the program keeps its data: under the local data of the user on Windows, under the
/// library of the user on a Mac, and elsewhere where the environment says or under the home
/// folder. A variable that is empty counts as none, and so does a relative one of these.
pub proof fn data_lies_where_the_platform_has_it(env: Environment)
    ensures
        ({
            let local = env.local_app_data is Some && env.local_app_data->0@.len() > 0;
            let profile = env.user_profile is Some && env.user_profile->0@.len() > 0;
            let r = app_location(Platform::Windows, env);
            &&& local ==> r == Some(
                Location { base: env.local_app_data->0@, steps: seq!["Savio"@] },
            )
            &&& !local && profile ==> r == Some(
                Location {
                    base: env.user_profile->0@,
                    steps: seq!["AppData"@, "Local"@, "Savio"@],
                },
            )
            &&& !local && !profile ==> r is None
        }),
        ({
            let home = env.home is Some && env.home->0@.len() > 0;
            let r = app_location(Platform::MacOs, env);
            &&& home ==> r == Some(
                Location {
                    base: env.home->0@,
                    steps: seq!["Library"@, "Application Support"@, "Savio"@],
                },
            )
            &&& !home ==> r is None
        }),
        ({
            let home = env.home is Some && env.home->0@.len() > 0;
            let xdg = env.xdg_data_home is Some && env.xdg_data_home->0@.len() > 0
                && env.xdg_data_home->0@[0] == '/';
            let r = app_location(Platform::Unix, env);
            &&& xdg ==> r == Some(
                Location { base: env.xdg_data_home->0@, steps: seq!["savio"@] },
            )
            &&& !xdg && home ==> r == Some(
                Location { base: env.home->0@, steps: seq![".local"@, "share"@, "savio"@] },
            )
            &&& !xdg && !home ==> r is None
        }),
{
}

proof fn lemma_first_file_found(list: Seq<Candidate>, i: int, k: int)
    requires
        0 <= i <= k < list.len(),
        list[k].is_file,
        forall|j: int| i <= j < k ==> !(#[trigger] list[j]).is_file,
    ensures
        first_file(list, i) == Some(list[k].path@),
    decreases k - i,
{
    if i < k {
        lemma_first_file_found(list, i + 1, k);
    }
}

/// Which copy of a tool is used: the one beside the program where it is there, else the first
/// that is there on the search path, else the own one; and none where none is there.
pub proof fn first_copy_that_is_there_is_used(search: Search, k: int)
    ensures
        ({
            let portable = search.portable is Some && search.portable->0.is_file;
            let owned = search.owned is Some && search.owned->0.is_file;
            let list = search.system@;
            &&& portable ==> chosen(search) == Some((search.portable->0.path@, Origin::Portable))
            &&& !portable && 0 <= k < list.len() && list[k].is_file && (forall|j: int|
                0 <= j < k ==> !(#[trigger] list[j]).is_file) ==> chosen(search) == Some(
                (list[k].path@, Origin::System),
            )
            &&& !portable && (forall|j: int|
                0 <= j < list.len() ==> !(#[trigger] list[j]).is_file) ==> chosen(search) == (
            if owned {
                Some((search.owned->0.path@, Origin::Owned))
            } else {
                None
            })
        }),
        chosen_path(search) is Some <==> chosen(search) is Some,
        chosen(search) matches Some((path, _)) ==> chosen_path(search) == Some(path),
{
    let list = search.system@;
    if 0 <= k < list.len() && list[k].is_file && (forall|j: int|
        0 <= j < k ==> !(#[trigger] list[j]).is_file) {
        lemma_first_file_found(list, 0, k);
    }
    if forall|j: int| 0 <= j < list.len() ==> !(#[trigger] list[j]).is_file {
        lemma_first_file_none(list, 0);
    }
}

proof fn lemma_first_file_none(list: Seq<Candidate>, i: int)
    requires
        forall|j: int| 0 <= j < list.len() ==> !(#[trigger] list[j]).is_file,
    ensures
        first_file(list, i) is None,
    decreases list.len() - i,
{
    if 0 <= i < list.len() {
        lemma_first_file_none(list, i + 1);
    }
}

/// A folder says where it starts and which steps lead down from there.
pub proof fn folder_says_where_it_lies(f: Folder, path: String, origin: Origin)
    ensures
        f@.base == f.base@,
        f@.steps.len() == f.steps@.len(),
        forall|i: int| 0 <= i < f.steps@.len() ==> f@.steps[i] == (#[trigger] f.steps@[i])@,
        location(Some(f)) == Some(f@) && location(None) is None,
        found(Some((path, origin))) == Some((path@, origin)) && found(None) is None,
{
}

/// What is told where yt-dlp is missing names the file and what is to be done.
pub proof fn missing_tool_is_named(name: Seq<char>)
    ensures
        missing_text(name) == "Не найден "@ + name
            + ". Положите его рядом с Savio или установите так, чтобы он был доступен в PATH."@,
{
}

} // verus!
