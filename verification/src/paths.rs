//! Names and folders of files.
use crate::text;
use vstd::prelude::*;

verus! {

/// A file name that every platform takes for one: not empty, no separator, no drive, and
/// neither of the two names that stand for folders.
pub open spec fn plain_name(name: Seq<char>) -> bool {
    &&& name.len() > 0
    &&& !name.contains('/')
    &&& !name.contains('\\')
    &&& !name.contains(':')
    &&& name != seq!['.']
    &&& name != seq!['.', '.']
}

/// Whether a character stands between the parts of a path: the slash everywhere, the
/// backslash on some platforms.
pub open spec fn is_separator(c: char, backslash: bool) -> bool {
    c == '/' || (backslash && c == '\\')
}

/// Whether a path begins with two separators, as the address of a machine does.
pub open spec fn is_network(path: Seq<char>) -> bool {
    path.len() >= 2 && is_separator(path[0], true) && is_separator(path[1], true)
}

/// A folder that every platform reads alike when a separator and a name follow it.
pub open spec fn plain_folder(dir: Seq<char>) -> bool {
    &&& dir.len() > 0
    &&& !is_separator(dir.last(), true)
    &&& dir.last() != ':'
    &&& dir.last() != '.'
    &&& !is_network(dir)
}

/// Whether `path` is the file `name` in the folder `dir`, on every platform.
pub open spec fn is_file_in(path: Seq<char>, dir: Seq<char>, name: Seq<char>) -> bool {
    &&& plain_folder(dir)
    &&& plain_name(name)
    &&& path == dir.push('/') + name
}

/// Whether `path` is the file `name` in the folder `dir` where the backslash separates, and a
/// name as a whole where it does not.
pub open spec fn is_file_behind(path: Seq<char>, dir: Seq<char>, name: Seq<char>) -> bool {
    &&& plain_folder(dir)
    &&& !dir.contains('/')
    &&& plain_name(name)
    &&& path == dir.push('\\') + name
}

/// Whether `name` is what the last part of `path` can be: of a plain name in a plain folder
/// that name, of a plain name by itself the whole of it, behind a backslash one of the two,
/// of other paths anything.
pub open spec fn may_be_name(path: Seq<char>, name: Option<Seq<char>>) -> bool {
    &&& plain_name(path) ==> name == Some(path)
    &&& forall|dir: Seq<char>, last: Seq<char>|
        #[trigger] is_file_in(path, dir, last) ==> name == Some(last)
    &&& forall|dir: Seq<char>, last: Seq<char>|
        #[trigger] is_file_behind(path, dir, last) ==> name == Some(last) || name == Some(path)
}

/// Whether `folder` is what `path` can be without its last part: of a plain name in a plain
/// folder that folder, of a plain name by itself nothing, behind a backslash one of the two,
/// of other paths anything.
pub open spec fn may_be_parent(path: Seq<char>, folder: Option<Seq<char>>) -> bool {
    &&& plain_name(path) ==> folder == Some(Seq::<char>::empty())
    &&& forall|dir: Seq<char>, last: Seq<char>|
        #[trigger] is_file_in(path, dir, last) ==> folder == Some(dir)
    &&& forall|dir: Seq<char>, last: Seq<char>|
        #[trigger] is_file_behind(path, dir, last) ==> folder == Some(dir) || folder == Some(
            Seq::<char>::empty(),
        )
}

/// Whether `changed` is what `path` can be with its last part replaced by `name`: a plain
/// name takes the place of another in the same folder, behind either separator. Where the
/// path has a backslash and no slash, a name without a slash takes the place of what stands
/// behind the backslash or of the whole.
pub open spec fn may_be_sibling(path: Seq<char>, name: Seq<char>, changed: Seq<char>) -> bool {
    &&& plain_name(path) && plain_name(name) ==> changed == name
    &&& forall|dir: Seq<char>, was: Seq<char>|
        #[trigger] is_file_in(path, dir, was) && plain_name(name) ==> changed == dir.push('/')
            + name || changed == dir.push('\\') + name
    &&& forall|dir: Seq<char>, was: Seq<char>|
        #[trigger] is_file_behind(path, dir, was) && name.len() > 0 && !name.contains('/')
            && name[0] != '\\' ==> changed == dir.push('\\') + name || changed == name
}

/// A part of a path.
#[derive(Debug)]
pub enum Part {
    /// A drive by its letter.
    Disk(u8),
    /// The address of a machine, or another prefix that is no drive.
    Share(String),
    Root,
    /// The folder itself, where it begins a path.
    Current,
    /// The folder above.
    Up,
    Name(String),
}

/// What a [`Part`] says.
pub enum Piece {
    Disk(u8),
    Share(Seq<char>),
    Root,
    Current,
    Up,
    Name(Seq<char>),
}

impl View for Part {
    type V = Piece;

    open spec fn view(&self) -> Piece {
        match *self {
            Part::Disk(letter) => Piece::Disk(letter),
            Part::Share(words) => Piece::Share(words@),
            Part::Root => Piece::Root,
            Part::Current => Piece::Current,
            Part::Up => Piece::Up,
            Part::Name(words) => Piece::Name(words@),
        }
    }
}

impl Part {
    fn copy(&self) -> (r: Part)
        ensures
            r@ == self@,
    {
        match self {
            Part::Disk(letter) => Part::Disk(*letter),
            Part::Share(words) => Part::Share(words.clone()),
            Part::Root => Part::Root,
            Part::Current => Part::Current,
            Part::Up => Part::Up,
            Part::Name(words) => Part::Name(words.clone()),
        }
    }

    fn equals(&self, other: &Part) -> (r: bool)
        ensures
            r == (self@ == other@),
    {
        match (self, other) {
            (Part::Disk(a), Part::Disk(b)) => *a == *b,
            (Part::Share(a), Part::Share(b)) => text::same_text(a.as_str(), b.as_str()),
            (Part::Root, Part::Root) => true,
            (Part::Current, Part::Current) => true,
            (Part::Up, Part::Up) => true,
            (Part::Name(a), Part::Name(b)) => text::same_text(a.as_str(), b.as_str()),
            _ => false,
        }
    }
}

/// What a list of parts says.
pub open spec fn pieces(parts: Seq<Part>) -> Seq<Piece> {
    parts.map_values(|p: Part| p@)
}

/// What stands between the separators of a path, empty words included.
pub open spec fn words(path: Seq<char>, backslash: bool) -> Seq<Seq<char>>
    decreases path.len(),
{
    if path.len() == 0 {
        seq![path]
    } else {
        let before = words(path.drop_last(), backslash);
        if is_separator(path.last(), backslash) {
            before.push(Seq::empty())
        } else {
            before.drop_last().push(before.last().push(path.last()))
        }
    }
}

/// The parts that words stand for: neither an empty word nor a single dot is any.
pub open spec fn parts_of_words(list: Seq<Seq<char>>) -> Seq<Piece>
    decreases list.len(),
{
    if list.len() == 0 {
        Seq::empty()
    } else {
        let before = parts_of_words(list.drop_last());
        let word = list.last();
        if word.len() == 0 || word == seq!['.'] {
            before
        } else if word == seq!['.', '.'] {
            before.push(Piece::Up)
        } else {
            before.push(Piece::Name(word))
        }
    }
}

/// What a path begins with: the root, the folder itself or neither.
pub open spec fn beginning(path: Seq<char>, backslash: bool) -> Seq<Piece> {
    if path.len() > 0 && is_separator(path[0], backslash) {
        seq![Piece::Root]
    } else if words(path, backslash)[0] == seq!['.'] {
        seq![Piece::Current]
    } else {
        Seq::empty()
    }
}

/// The parts of a path that names no drive and no machine.
pub open spec fn reading(path: Seq<char>, backslash: bool) -> Seq<Piece> {
    beginning(path, backslash) + parts_of_words(words(path, backslash))
}

pub open spec fn is_letter(c: char) -> bool {
    'a' <= c <= 'z' || 'A' <= c <= 'Z'
}

/// Whether a path names a drive where there are drives.
pub open spec fn has_drive(path: Seq<char>) -> bool {
    path.len() >= 2 && path[1] == ':' && is_letter(path[0])
}

/// Whether `parts` are the parts of `path` where there are drives and the backslash separates.
/// Of the drive it is said which one it is where the letter is a capital.
pub open spec fn is_drive_reading(path: Seq<char>, parts: Seq<Piece>) -> bool {
    if has_drive(path) {
        &&& parts.len() > 0
        &&& parts[0] is Disk
        &&& 'A' <= path[0] <= 'Z' ==> parts[0] == Piece::Disk(path[0] as u8)
        &&& parts.skip(1) == reading(path.skip(2), true)
    } else {
        parts == reading(path, true)
    }
}

/// Whether `parts` are what `path` can consist of: it is read with drives and backslashes or
/// without, by the platform. Of the address of a machine, and of a colon behind anything but
/// a letter, nothing is said.
pub open spec fn may_be_parts(path: Seq<char>, parts: Seq<Piece>) -> bool {
    is_network(path) || (path.len() >= 2 && path[1] == ':' && !is_letter(path[0])) || parts
        == reading(path, false) || is_drive_reading(path, parts)
}

/// `std::path::Path::components`: the parts of a path, each as a value of its own. Repeated
/// separators, separators at the end and single dots behind the beginning are no parts. What
/// separates and whether there are drives depends on the platform; both readings are stated.
#[verifier::external_body]
pub(crate) fn components(path: &str) -> (r: Vec<Part>)
    ensures
        may_be_parts(path@, pieces(r@)),
{
    let mut out: Vec<Part> = Vec::new();
    for part in std::path::Path::new(path).components() {
        out.push(match part {
            std::path::Component::Prefix(p) => match p.kind() {
                std::path::Prefix::Disk(letter) => Part::Disk(letter),
                other => Part::Share(format!("{other:?}")),
            },
            std::path::Component::RootDir => Part::Root,
            std::path::Component::CurDir => Part::Current,
            std::path::Component::ParentDir => Part::Up,
            std::path::Component::Normal(n) => Part::Name(n.to_string_lossy().into_owned()),
        });
    }
    out
}

/// `std::path::Path::file_name`, as text: the last part of a path, if it has one. What the
/// parts of a path are that is not plain depends on the platform and is left open.
#[verifier::external_body]
pub(crate) fn file_name(path: &str) -> (r: Option<String>)
    ensures
        may_be_name(path@, text::said(r)),
{
    std::path::Path::new(path).file_name().map(|n| n.to_string_lossy().into_owned())
}

/// `std::path::Path::parent`, as text: the path without its last part, if it has one. What
/// the parts of a path are that is not plain depends on the platform and is left open.
#[verifier::external_body]
pub(crate) fn parent(path: &str) -> (r: Option<String>)
    ensures
        may_be_parent(path@, text::said(r)),
{
    std::path::Path::new(path).parent().map(|d| d.to_string_lossy().into_owned())
}

/// `std::path::Path::with_file_name`, as text: the path with its last part replaced. What
/// the parts of a path are that is not plain depends on the platform and is left open, and
/// so is which separator the platform writes.
#[verifier::external_body]
pub(crate) fn with_file_name(path: &str, name: &str) -> (r: String)
    ensures
        may_be_sibling(path@, name@, r@),
{
    std::path::Path::new(path).with_file_name(name).to_string_lossy().into_owned()
}

/// Where the last dot of a name stands before `i`, if there is one.
pub open spec fn last_dot(name: Seq<char>, i: int) -> int
    decreases i,
{
    if i <= 0 {
        -1
    } else if name[i - 1] == '.' {
        i - 1
    } else {
        last_dot(name, i - 1)
    }
}

/// Where the extension of a name is cut off: at its last dot, unless that begins the name.
pub open spec fn cut_of(name: Seq<char>) -> Option<int> {
    if last_dot(name, name.len() as int) <= 0 || name == seq!['.', '.'] {
        None
    } else {
        Some(last_dot(name, name.len() as int))
    }
}

/// The name without its extension.
pub open spec fn stem_of(name: Seq<char>) -> Seq<char> {
    match cut_of(name) {
        None => name,
        Some(i) => name.take(i),
    }
}

/// What stands behind the last dot of a name that has an extension.
pub open spec fn extension_of(name: Seq<char>) -> Option<Seq<char>> {
    match cut_of(name) {
        None => None,
        Some(i) => Some(name.skip(i + 1)),
    }
}

fn dot_position(v: &Vec<char>) -> (r: Option<usize>)
    ensures
        r is Some <==> cut_of(v@) is Some,
        r matches Some(i) ==> cut_of(v@) == Some(i as int) && i < v@.len(),
{
    if v.len() == 2 && v[0] == '.' && v[1] == '.' {
        assert(v@ =~= seq!['.', '.']);
        return None;
    }
    let mut i: usize = v.len();
    while i > 0 && v[i - 1] != '.'
        invariant
            i <= v@.len(),
            last_dot(v@, v@.len() as int) == last_dot(v@, i as int),
        decreases i,
    {
        i -= 1;
    }
    if i <= 1 {
        None
    } else {
        Some(i - 1)
    }
}

/// The name of a file without its extension.
pub fn file_stem(name: &str) -> (r: String)
    ensures
        r@ == stem_of(name@),
{
    let v = text::chars_of(name);
    match dot_position(&v) {
        None => name.to_owned(),
        Some(i) => {
            let out = text::string_of(&v, 0, i);
            assert(out@ =~= name@.take(i as int));
            out
        },
    }
}

/// The extension of a file by its name.
pub fn extension(name: &str) -> (r: Option<String>)
    ensures
        r is Some <==> extension_of(name@) is Some,
        r matches Some(e) ==> extension_of(name@) == Some(e@),
{
    let v = text::chars_of(name);
    match dot_position(&v) {
        None => None,
        Some(i) => {
            let len = v.len();
            let out = text::string_of(&v, i + 1, len);
            assert(out@ =~= name@.skip(i + 1));
            Some(out)
        },
    }
}

/// A name is its stem, a dot and its extension, or its stem alone.
pub proof fn name_is_stem_and_extension(name: Seq<char>)
    ensures
        match extension_of(name) {
            Some(e) => name == stem_of(name).push('.') + e && stem_of(name).len() > 0,
            None => name == stem_of(name),
        },
{
    lemma_last_dot(name, name.len() as int);
    if let Some(i) = cut_of(name) {
        assert(name =~= name.take(i).push('.') + name.skip(i + 1));
    }
}

proof fn lemma_last_dot(name: Seq<char>, i: int)
    requires
        i <= name.len(),
    ensures
        -1 <= last_dot(name, i) < name.len() || (last_dot(name, i) == -1),
        last_dot(name, i) >= 0 ==> name[last_dot(name, i)] == '.' && last_dot(name, i) < i,
    decreases i,
{
    if i > 0 && name[i - 1] != '.' {
        lemma_last_dot(name, i - 1);
    }
}

/// A path with what it splits into.
#[derive(Debug)]
pub struct FilePath {
    pub path: String,
    pub name: Option<String>,
    pub parent: Option<String>,
    /// The parts of the path, by which two ways to write it are recognised.
    pub parts: Vec<Part>,
}

/// What a [`FilePath`] says.
#[verifier::ext_equal]
pub struct Split {
    pub path: Seq<char>,
    pub name: Option<Seq<char>>,
    pub parent: Option<Seq<char>>,
    pub parts: Seq<Piece>,
}

/// Whether a path can split into these parts.
pub open spec fn may_split(path: Seq<char>, s: Split) -> bool {
    &&& s.path == path
    &&& may_be_name(path, s.name)
    &&& may_be_parent(path, s.parent)
    &&& may_be_parts(path, s.parts)
}

/// Whether two paths are of one file: they are written alike, or consist of the same parts.
pub open spec fn same_file(a: Split, b: Split) -> bool {
    a.path == b.path || a.parts == b.parts
}

/// What a path says that may be missing.
pub open spec fn split_of(path: Option<FilePath>) -> Option<Split> {
    match path {
        Some(p) => Some(p@),
        None => None,
    }
}

/// Whether two paths are of one file, or both are missing.
pub open spec fn same_option(a: Option<Split>, b: Option<Split>) -> bool {
    match (a, b) {
        (Some(x), Some(y)) => same_file(x, y),
        (None, None) => true,
        _ => false,
    }
}

impl View for FilePath {
    type V = Split;

    open spec fn view(&self) -> Split {
        Split {
            path: self.path@,
            name: text::said(self.name),
            parent: text::said(self.parent),
            parts: pieces(self.parts@),
        }
    }
}

impl FilePath {
    /// Splits a path.
    pub fn split(path: &str) -> (r: FilePath)
        ensures
            may_split(path@, r@),
    {
        FilePath {
            path: path.to_owned(),
            name: file_name(path),
            parent: parent(path),
            parts: components(path),
        }
    }

    /// Whether both are paths of one file.
    pub fn is_same(&self, other: &FilePath) -> (r: bool)
        ensures
            r == same_file(self@, other@),
    {
        if text::same_text(self.path.as_str(), other.path.as_str()) {
            return true;
        }
        if self.parts.len() != other.parts.len() {
            assert(self@.parts.len() != other@.parts.len());
            return false;
        }
        let mut i: usize = 0;
        while i < self.parts.len()
            invariant
                i <= self.parts@.len() == other.parts@.len(),
                self@.path != other@.path,
                forall|k: int| 0 <= k < i ==> (#[trigger] self.parts@[k])@ == other.parts@[k]@,
            decreases self.parts@.len() - i,
        {
            if !self.parts[i].equals(&other.parts[i]) {
                assert(self@.parts[i as int] != other@.parts[i as int]);
                return false;
            }
            i += 1;
        }
        assert(self@.parts =~= other@.parts);
        true
    }
}

impl PartialEq for FilePath {
    fn eq(&self, other: &FilePath) -> (r: bool) {
        self.is_same(other)
    }
}

impl vstd::std_specs::cmp::PartialEqSpecImpl for FilePath {
    open spec fn obeys_eq_spec() -> bool {
        true
    }

    open spec fn eq_spec(&self, other: &FilePath) -> bool {
        same_file(self@, other@)
    }
}

impl Eq for FilePath {

}

impl Clone for FilePath {
    fn clone(&self) -> (r: FilePath)
        ensures
            r@ == self@,
    {
        let mut parts: Vec<Part> = Vec::new();
        let mut i: usize = 0;
        while i < self.parts.len()
            invariant
                i <= self.parts@.len(),
                parts@.len() == i,
                forall|k: int| 0 <= k < i ==> (#[trigger] parts@[k])@ == self.parts@[k]@,
            decreases self.parts@.len() - i,
        {
            parts.push(self.parts[i].copy());
            i += 1;
        }
        assert(pieces(parts@) =~= pieces(self.parts@));
        FilePath {
            path: self.path.clone(),
            name: text::copy_option(&self.name),
            parent: text::copy_option(&self.parent),
            parts,
        }
    }
}

pub fn copy_option(path: &Option<FilePath>) -> (r: Option<FilePath>)
    ensures
        split_of(r) == split_of(*path),
{
    match path {
        Some(p) => Some(p.clone()),
        None => None,
    }
}

pub fn options_are_same(a: &Option<FilePath>, b: &Option<FilePath>) -> (r: bool)
    ensures
        r == same_option(split_of(*a), split_of(*b)),
{
    match (a, b) {
        (Some(x), Some(y)) => x.is_same(y),
        (None, None) => true,
        _ => false,
    }
}

proof fn lemma_words_len(path: Seq<char>, backslash: bool)
    ensures
        words(path, backslash).len() > 0,
    decreases path.len(),
{
    if path.len() > 0 {
        lemma_words_len(path.drop_last(), backslash);
    }
}

/// What stands on both sides of a separator is read on its own.
proof fn lemma_words_joined(a: Seq<char>, c: char, b: Seq<char>, backslash: bool)
    requires
        is_separator(c, backslash),
    ensures
        words(a.push(c) + b, backslash) == words(a, backslash) + words(b, backslash),
    decreases b.len(),
{
    let whole = a.push(c) + b;
    lemma_words_len(a, backslash);
    lemma_words_len(b, backslash);
    if b.len() == 0 {
        assert(whole =~= a.push(c));
        assert(whole.drop_last() =~= a);
        assert(b =~= Seq::empty());
        assert(words(whole, backslash) =~= words(a, backslash) + words(b, backslash));
    } else {
        assert(whole.drop_last() =~= a.push(c) + b.drop_last());
        assert(whole.last() == b.last());
        lemma_words_joined(a, c, b.drop_last(), backslash);
        lemma_words_len(b.drop_last(), backslash);
        assert(words(whole, backslash) =~= words(a, backslash) + words(b, backslash));
    }
}

/// A text without separators is one word.
proof fn lemma_one_word(name: Seq<char>, backslash: bool)
    requires
        forall|i: int| 0 <= i < name.len() ==> !is_separator(#[trigger] name[i], backslash),
    ensures
        words(name, backslash) == seq![name],
    decreases name.len(),
{
    if name.len() > 0 {
        let front = name.drop_last();
        assert forall|i: int| 0 <= i < front.len() implies !is_separator(
            #[trigger] front[i],
            backslash,
        ) by {
            assert(front[i] == name[i]);
        }
        lemma_one_word(front, backslash);
        assert(front.push(name.last()) =~= name);
        assert(words(name, backslash) =~= seq![name]);
    }
}

proof fn lemma_parts_joined(a: Seq<Seq<char>>, b: Seq<Seq<char>>)
    ensures
        parts_of_words(a + b) == parts_of_words(a) + parts_of_words(b),
    decreases b.len(),
{
    if b.len() == 0 {
        assert(a + b =~= a);
        assert(parts_of_words(a) + parts_of_words(b) =~= parts_of_words(a));
    } else {
        assert((a + b).drop_last() =~= a + b.drop_last());
        lemma_parts_joined(a, b.drop_last());
        assert(parts_of_words(a + b) =~= parts_of_words(a) + parts_of_words(b));
    }
}

/// A separator that is written twice in the middle of a path changes none of its parts.
pub proof fn doubled_separator_is_one(a: Seq<char>, c: char, b: Seq<char>, backslash: bool)
    requires
        a.len() > 0,
        is_separator(c, backslash),
    ensures
        reading(a.push(c).push(c) + b, backslash) == reading(a.push(c) + b, backslash),
{
    let once = a.push(c) + b;
    let twice = a.push(c).push(c) + b;
    lemma_words_len(a, backslash);
    lemma_words_joined(a, c, b, backslash);
    lemma_words_joined(a.push(c), c, b, backslash);
    let blank = Seq::<char>::empty();
    assert(a.push(c).drop_last() =~= a);
    assert(words(a.push(c), backslash) == words(a, backslash).push(blank));
    lemma_parts_joined(words(a, backslash), words(b, backslash));
    lemma_parts_joined(words(a.push(c), backslash), words(b, backslash));
    assert(words(a.push(c), backslash).drop_last() =~= words(a, backslash));
    assert(once[0] == a[0] && twice[0] == a[0]);
}

/// A path without backslashes has the same words whether or not they separate.
proof fn lemma_words_alike(path: Seq<char>)
    requires
        !path.contains('\\'),
    ensures
        words(path, true) == words(path, false),
    decreases path.len(),
{
    if path.len() > 0 {
        assert(path.contains(path.last()));
        assert forall|i: int| 0 <= i < path.drop_last().len() implies path.drop_last()[i]
            != '\\' by {
            assert(path.contains(path[i]));
        }
        lemma_words_alike(path.drop_last());
    }
}

/// A path without backslashes and drives consists of the same parts on every platform.
pub proof fn slashes_are_read_alike(path: Seq<char>, parts: Seq<Piece>)
    requires
        !path.contains('\\'),
        !is_network(path),
        !(path.len() >= 2 && path[1] == ':'),
        may_be_parts(path, parts),
    ensures
        parts == reading(path, false),
{
    lemma_words_alike(path);
    if path.len() > 0 {
        assert(path.contains(path[0]));
    }
}

/// Two paths are of one file where they differ in nothing but a slash that is written twice.
pub proof fn doubled_slash_is_the_same_file(a: Seq<char>, b: Seq<char>, p: Split, q: Split)
    requires
        a.len() > 0,
        p.path == a.push('/') + b,
        q.path == a.push('/').push('/') + b,
        !p.path.contains('\\'),
        !is_network(q.path),
        p.path[1] != ':',
        may_be_parts(p.path, p.parts),
        may_be_parts(q.path, q.parts),
    ensures
        same_file(p, q),
{
    assert forall|i: int| 0 <= i < q.path.len() implies q.path[i] != '\\' by {
        if i <= a.len() {
            assert(q.path[i] == p.path[i]);
            assert(p.path.contains(p.path[i]));
        } else {
            assert(q.path[i] == p.path[i - 1]);
            assert(p.path.contains(p.path[i - 1]));
        }
    }
    assert(p.path[0] == q.path[0]);
    assert(q.path[1] == p.path[1]);
    assert(a.len() == 1 ==> q.path[1] == '/');
    slashes_are_read_alike(p.path, p.parts);
    slashes_are_read_alike(q.path, q.parts);
    doubled_separator_is_one(a, '/', b, false);
}

/// A plain name behind a separator is the last part of a path.
proof fn lemma_last_part(path: Seq<char>, dir: Seq<char>, c: char, name: Seq<char>, backslash: bool)
    requires
        plain_name(name),
        is_separator(c, backslash),
        path == dir.push(c) + name,
    ensures
        reading(path, backslash).len() > 0,
        reading(path, backslash).last() == Piece::Name(name),
{
    lemma_name_has_no_separator(name, backslash);
    lemma_words_joined(dir, c, name, backslash);
    lemma_one_word(name, backslash);
    let all = words(path, backslash);
    assert(all.last() == name);
}

proof fn lemma_name_has_no_separator(name: Seq<char>, backslash: bool)
    requires
        !name.contains('/'),
        backslash ==> !name.contains('\\'),
    ensures
        forall|i: int| 0 <= i < name.len() ==> !is_separator(#[trigger] name[i], backslash),
{
    assert forall|i: int| 0 <= i < name.len() implies !is_separator(
        #[trigger] name[i],
        backslash,
    ) by {
        assert(name.contains(name[i]));
    }
}

/// Whether `path` is a file of that plain name: in a folder behind either separator.
pub open spec fn is_named(path: Seq<char>, dir: Seq<char>, name: Seq<char>) -> bool {
    is_file_in(path, dir, name) || is_file_behind(path, dir, name)
}

/// A name is the last part of its path, or the path is the only part.
proof fn lemma_named_parts(path: Seq<char>, dir: Seq<char>, name: Seq<char>, parts: Seq<Piece>)
    requires
        is_named(path, dir, name),
        may_be_parts(path, parts),
        path[1] == ':' ==> is_letter(path[0]),
    ensures
        parts.len() > 0,
        parts.last() == Piece::Name(name) || (parts == seq![Piece::Name(path)] && path.contains(
            '\\',
        )),
        words(path, true).last() == name,
{
    let c = if is_file_in(path, dir, name) {
        '/'
    } else {
        '\\'
    };
    assert(path[dir.len() as int] == c);
    assert(path[0] == dir[0]);
    assert(!is_network(path)) by {
        if dir.len() >= 2 {
            assert(path[1] == dir[1]);
        } else {
            assert(dir[0] == dir.last());
        }
    }
    lemma_name_has_no_separator(name, true);
    lemma_words_joined(dir, c, name, true);
    lemma_one_word(name, true);
    if parts == reading(path, false) {
        if c == '/' {
            lemma_last_part(path, dir, c, name, false);
        } else {
            assert forall|i: int| 0 <= i < path.len() implies !is_separator(
                #[trigger] path[i],
                false,
            ) by {
                if i < dir.len() {
                    assert(path[i] == dir[i]);
                } else if i > dir.len() {
                    assert(path[i] == name[i - dir.len() - 1]);
                }
            }
            lemma_one_word(path, false);
            assert(path != seq!['.'] && path != seq!['.', '.']) by {
                assert(path.len() >= 2);
                assert(seq!['.', '.'][dir.len() as int] == '.' || dir.len() > 1);
            }
            let all = seq![path];
            assert(all.drop_last() =~= Seq::empty());
            assert(parts_of_words(Seq::<Seq<char>>::empty()) =~= Seq::empty());
            assert(parts_of_words(all) =~= seq![Piece::Name(path)]);
            assert(parts =~= seq![Piece::Name(path)]);
        }
    } else if has_drive(path) {
        assert(dir.len() >= 2);
        assert(path.skip(2) =~= dir.skip(2).push(c) + name);
        lemma_last_part(path.skip(2), dir.skip(2), c, name, true);
        assert(parts.skip(1).last() == parts.last());
    } else {
        lemma_last_part(path, dir, c, name, true);
    }
}

/// Files of different names are different files, in whatever folders they lie.
pub proof fn other_names_are_other_files(
    p: Split,
    p_dir: Seq<char>,
    p_name: Seq<char>,
    q: Split,
    q_dir: Seq<char>,
    q_name: Seq<char>,
)
    requires
        is_named(p.path, p_dir, p_name),
        is_named(q.path, q_dir, q_name),
        p.path[1] == ':' ==> is_letter(p.path[0]),
        q.path[1] == ':' ==> is_letter(q.path[0]),
        may_be_parts(p.path, p.parts),
        may_be_parts(q.path, q.parts),
        p_name != q_name,
    ensures
        !same_file(p, q),
{
    lemma_named_parts(p.path, p_dir, p_name, p.parts);
    lemma_named_parts(q.path, q_dir, q_name, q.parts);
    assert(seq![Piece::Name(p.path)].last() == Piece::Name(p.path));
    assert(seq![Piece::Name(q.path)].last() == Piece::Name(q.path));
}

proof fn lemma_last_dot_at(name: Seq<char>, i: int, at: int)
    requires
        0 <= at < i <= name.len(),
        name[at] == '.',
        forall|k: int| at < k < i ==> (#[trigger] name[k]) != '.',
    ensures
        last_dot(name, i) == at,
    decreases i,
{
    if name[i - 1] != '.' {
        lemma_last_dot_at(name, i - 1, at);
    }
}

proof fn lemma_no_dot(name: Seq<char>, i: int)
    requires
        0 <= i <= name.len(),
        forall|k: int| 0 <= k < i ==> (#[trigger] name[k]) != '.',
    ensures
        last_dot(name, i) == -1,
    decreases i,
{
    if i > 0 {
        lemma_no_dot(name, i - 1);
    }
}

/// The extension of a name is what stands behind its last dot, and the stem what stands in
/// front of that.
pub proof fn stem_and_extension_are_found(stem: Seq<char>, extension: Seq<char>)
    requires
        stem.len() > 0,
        !extension.contains('.'),
        stem != seq!['.'] || extension.len() > 0,
    ensures
        extension_of(stem + "."@ + extension) == Some(extension),
        stem_of(stem + "."@ + extension) == stem,
{
    reveal_strlit(".");
    let name = stem + "."@ + extension;
    let at = stem.len() as int;
    assert(name[at] == '.');
    assert forall|k: int| at < k < name.len() implies (#[trigger] name[k]) != '.' by {
        assert(name[k] == extension[k - at - 1]);
        assert(extension.contains(extension[k - at - 1]));
    }
    lemma_last_dot_at(name, name.len() as int, at);
    assert(name != seq!['.', '.']) by {
        if name == seq!['.', '.'] {
            assert(name.len() == 2);
            assert(stem =~= seq!['.']);
        }
    }
    assert(name.skip(at + 1) =~= extension);
    assert(name.take(at) =~= stem);
}

/// A name without a dot, and one whose only dot begins it, has no extension.
pub proof fn name_without_a_dot_is_a_stem(name: Seq<char>)
    requires
        !name.contains('.'),
    ensures
        extension_of(name) is None && stem_of(name) == name,
        extension_of("."@ + name) is None && stem_of("."@ + name) == "."@ + name,
{
    reveal_strlit(".");
    assert forall|k: int| 0 <= k < name.len() implies (#[trigger] name[k]) != '.' by {
        assert(name.contains(name[k]));
    }
    lemma_no_dot(name, name.len() as int);
    let hidden = "."@ + name;
    assert(hidden[0] == '.');
    assert forall|k: int| 0 < k < hidden.len() implies (#[trigger] hidden[k]) != '.' by {
        assert(hidden[k] == name[k - 1]);
    }
    lemma_last_dot_at(hidden, hidden.len() as int, 0);
}

/// A plain name behind a slash is one part more; by itself it is the only part.
pub proof fn name_in_a_folder_is_one_part_more(dir: Seq<char>, name: Seq<char>)
    requires
        plain_name(name),
        dir.len() > 0,
    ensures
        reading(dir.push('/') + name, false) == reading(dir, false).push(Piece::Name(name)),
        reading(name, false) == seq![Piece::Name(name)],
        reading("/"@ + name, false) == seq![Piece::Root, Piece::Name(name)],
        reading("/"@, false) == seq![Piece::Root],
        reading(".."@, false) == seq![Piece::Up],
        reading("."@, false) == seq![Piece::Current],
{
    reveal_strlit("/");
    reveal_strlit("..");
    reveal_strlit(".");
    let one = seq![name];
    let nothing = Seq::<Seq<char>>::empty();
    lemma_name_has_no_separator(name, false);
    lemma_one_word(name, false);
    assert(one.drop_last() =~= nothing);
    assert(parts_of_words(nothing) =~= Seq::empty());
    assert(parts_of_words(one) =~= seq![Piece::Name(name)]);
    assert(!is_separator(name[0], false));
    assert(reading(name, false) =~= seq![Piece::Name(name)]);
    let path = dir.push('/') + name;
    lemma_words_joined(dir, '/', name, false);
    lemma_words_len(dir, false);
    lemma_parts_joined(words(dir, false), one);
    assert(path[0] == dir[0]);
    assert(words(path, false)[0] == words(dir, false)[0]);
    assert(reading(path, false) =~= reading(dir, false).push(Piece::Name(name)));
    let none = Seq::<char>::empty();
    let rooted = "/"@ + name;
    assert(rooted =~= none.push('/') + name);
    lemma_words_joined(none, '/', name, false);
    lemma_parts_joined(words(none, false), one);
    let blank = seq![none];
    assert(words(none, false) == blank);
    assert(blank.drop_last() =~= nothing);
    assert(parts_of_words(blank) =~= Seq::empty());
    assert(reading(rooted, false) =~= seq![Piece::Root, Piece::Name(name)]);
    let slash = "/"@;
    assert(slash =~= none.push('/') + none);
    lemma_words_joined(none, '/', none, false);
    lemma_parts_joined(blank, blank);
    assert(reading(slash, false) =~= seq![Piece::Root]);
    let up = ".."@;
    assert(up =~= seq!['.', '.']);
    assert forall|i: int| 0 <= i < up.len() implies !is_separator(#[trigger] up[i], false) by {}
    lemma_one_word(up, false);
    assert(seq![up].drop_last() =~= nothing);
    assert(parts_of_words(seq![up]) =~= seq![Piece::Up]);
    assert(up != seq!['.']) by {
        assert(up.len() == 2);
    }
    assert(reading(up, false) =~= seq![Piece::Up]);
    let here = "."@;
    assert(here =~= seq!['.']);
    assert forall|i: int| 0 <= i < here.len() implies !is_separator(#[trigger] here[i], false) by {}
    lemma_one_word(here, false);
    assert(seq![here].drop_last() =~= nothing);
    assert(parts_of_words(seq![here]) =~= Seq::empty());
    assert(reading(here, false) =~= seq![Piece::Current]);
}

/// Two paths are of one file where they are written alike or consist of the same parts, and
/// nowhere else: neither the same name nor the same folder makes two files one.
pub proof fn one_file_has_one_list_of_parts(p: Split, q: Split)
    ensures
        p.path == q.path ==> same_file(p, q),
        p.parts == q.parts ==> same_file(p, q),
        p.path != q.path && p.parts != q.parts ==> !same_file(p, q),
{
}

/// What a path says is what it holds.
pub proof fn split_says_what_the_path_holds(f: FilePath)
    ensures
        f@.path == f.path@,
        f.name is Some <==> f@.name is Some,
        f.name is Some ==> f@.name->0 == f.name->0@,
        f.parent is Some <==> f@.parent is Some,
        f.parent is Some ==> f@.parent->0 == f.parent->0@,
        f@.parts.len() == f.parts@.len(),
        forall|i: int| 0 <= i < f.parts@.len() ==> f@.parts[i] == (#[trigger] f.parts@[i])@,
        split_of(Some(f)) == Some(f@) && split_of(None) is None,
{
}

} // verus!
