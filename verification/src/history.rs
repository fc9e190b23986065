//! What has been downloaded in this run, the newest on top.
use crate::paths;
use crate::paths::{FilePath, Split};
use crate::text;
use vstd::prelude::*;

verus! {

/// How many downloads are remembered.
pub const HISTORY_LIMIT: usize = 50;

/// A downloaded file: its name and where it lies.
#[derive(Debug)]
pub struct HistoryEntry {
    pub name: String,
    /// The folder to open; none where there is nothing to open.
    pub dir: Option<String>,
    /// The folder as it is shown; empty where there is none.
    pub dir_display: String,
    /// The whole path, by which a file is recognised when it is downloaded again.
    pub path: FilePath,
}

/// What a [`HistoryEntry`] says.
#[verifier::ext_equal]
pub struct Entry {
    pub name: Seq<char>,
    pub dir: Option<Seq<char>>,
    pub dir_display: Seq<char>,
    pub path: Split,
}

impl View for HistoryEntry {
    type V = Entry;

    open spec fn view(&self) -> Entry {
        Entry {
            name: self.name@,
            dir: text::said(self.dir),
            dir_display: self.dir_display@,
            path: self.path@,
        }
    }
}

/// What a list of entries says.
pub open spec fn entries(list: Seq<HistoryEntry>) -> Seq<Entry> {
    list.map_values(|e: HistoryEntry| e@)
}

/// The entry of a file. A path without a name is shown whole, and an empty folder is none.
pub open spec fn entry_of(file: Split) -> Entry {
    let dir = match file.parent {
        Some(d) => if d.len() > 0 {
            Some(d)
        } else {
            None
        },
        None => None,
    };
    Entry {
        name: (match file.name {
            Some(n) => n,
            None => file.path,
        }),
        dir,
        dir_display: (match dir {
            Some(d) => d,
            None => Seq::empty(),
        }),
        path: file,
    }
}

/// The entries but for those of one file.
pub open spec fn without(list: Seq<Entry>, path: Split) -> Seq<Entry>
    decreases list.len(),
{
    if list.len() == 0 {
        list
    } else if paths::same_file(list.last().path, path) {
        without(list.drop_last(), path)
    } else {
        without(list.drop_last(), path).push(list.last())
    }
}

/// At most so many entries as are remembered, from the top.
pub open spec fn topmost(list: Seq<Entry>) -> Seq<Entry> {
    if list.len() <= HISTORY_LIMIT {
        list
    } else {
        list.take(HISTORY_LIMIT as int)
    }
}

/// The entries once one more file was downloaded: it comes on top, and what was known of the
/// same file goes, however its path was written.
pub open spec fn remembered(list: Seq<Entry>, new: Entry) -> Seq<Entry> {
    topmost(seq![new] + without(list, new.path))
}

/// The downloads of this run.
#[derive(Debug)]
pub struct History {
    pub entries: Vec<HistoryEntry>,
}

impl Default for History {
    fn default() -> (r: History)
        ensures
            r@ == Seq::<Entry>::empty(),
    {
        let list: Vec<HistoryEntry> = Vec::new();
        assert(entries(list@) =~= Seq::empty());
        History { entries: list }
    }
}

impl View for History {
    type V = Seq<Entry>;

    open spec fn view(&self) -> Seq<Entry> {
        entries(self.entries@)
    }
}

impl History {
    /// Takes out the entries of a file.
    fn forget(&mut self, path: &FilePath)
        ensures
            final(self)@ == without(old(self)@, path@),
    {
        let ghost all = self@;
        let ghost before = self.entries@;
        let ghost mut k: int = 0;
        let mut i: usize = 0;
        assert(all.take(0) =~= Seq::empty());
        while i < self.entries.len()
            invariant
                i <= self.entries@.len(),
                0 <= k <= before.len(),
                before.len() - k == self.entries@.len() - i,
                all == entries(before),
                entries(self.entries@.take(i as int)) == without(all.take(k), path@),
                forall|j: int|
                    i <= j < self.entries@.len() ==> (#[trigger] self.entries@[j]) == before[j - i
                        + k],
            decreases self.entries@.len() - i,
        {
            proof {
                assert(self.entries@[i as int] == before[k]);
                assert(all[k] == before[k]@);
                assert(all.take(k + 1).drop_last() =~= all.take(k));
                assert(all.take(k + 1).last() == all[k]);
            }
            let ghost list = self.entries@;
            if self.entries[i].path.is_same(path) {
                let gone = self.entries.remove(i);
                assert(self.entries@.take(i as int) =~= list.take(i as int));
                assert forall|j: int| i <= j < self.entries@.len() implies (
                #[trigger] self.entries@[j]) == before[j - i + k + 1] by {
                    assert(self.entries@[j] == list[j + 1]);
                }
            } else {
                assert(entries(list.take(i + 1)) =~= entries(list.take(i as int)).push(all[k]));
                i += 1;
            }
            proof {
                k = k + 1;
            }
        }
        assert(self.entries@.take(i as int) =~= self.entries@);
        assert(all.take(k) =~= all);
    }

    /// Remembers a file by its path and by what the path splits into.
    pub fn remember_split(&mut self, file: &FilePath)
        ensures
            final(self)@ == remembered(old(self)@, entry_of(file@)),
    {
        let ghost new = entry_of(file@);
        self.forget(file);
        let dir: Option<String> = match &file.parent {
            Some(d) => if d.as_str().is_empty() {
                None
            } else {
                Some(d.clone())
            },
            None => None,
        };
        let dir_display: String = match &dir {
            Some(d) => d.clone(),
            None => String::new(),
        };
        let shown: String = match &file.name {
            Some(n) => n.clone(),
            None => file.path.clone(),
        };
        let entry = HistoryEntry { name: shown, dir, dir_display, path: file.clone() };
        assert(entry@ =~= new);
        let ghost rest = self@;
        self.entries.insert(0, entry);
        assert(self@ =~= seq![new] + rest);
        if self.entries.len() > HISTORY_LIMIT {
            self.entries.truncate(HISTORY_LIMIT);
            assert(self@ =~= (seq![new] + rest).take(HISTORY_LIMIT as int));
        }
    }

    /// Remembers a file by its path.
    pub fn remember(&mut self, path: &str)
        ensures
            exists|file: Split| #[trigger]
                paths::may_split(path@, file) && final(self)@ == remembered(
                    old(self)@,
                    entry_of(file),
                ),
    {
        let file = FilePath::split(path);
        self.remember_split(&file);
        assert(paths::may_split(path@, file@));
    }
}

/// Whether no two entries are of one file.
pub open spec fn distinct(list: Seq<Entry>) -> bool {
    forall|i: int, j: int|
        0 <= i < j < list.len() ==> !paths::same_file(
            (#[trigger] list[i]).path,
            (#[trigger] list[j]).path,
        )
}

proof fn lemma_without(list: Seq<Entry>, path: Split)
    ensures
        without(list, path).len() <= list.len(),
        forall|i: int|
            0 <= i < without(list, path).len() ==> list.contains(
                #[trigger] without(list, path)[i],
            ) && !paths::same_file(without(list, path)[i].path, path),
        distinct(list) ==> distinct(without(list, path)),
        forall|i: int|
            0 <= i < list.len() && !paths::same_file((#[trigger] list[i]).path, path) ==> without(
                list,
                path,
            ).contains(list[i]),
    decreases list.len(),
{
    if list.len() > 0 {
        let front = list.drop_last();
        let rest = without(front, path);
        let after = without(list, path);
        lemma_without(front, path);
        assert forall|i: int| 0 <= i < after.len() implies list.contains(#[trigger] after[i])
            && !paths::same_file(after[i].path, path) by {
            if i < rest.len() {
                assert(after[i] == rest[i]);
                let k = choose|k: int| 0 <= k < front.len() && front[k] == rest[i];
                assert(list[k] == after[i]);
            } else {
                assert(list[list.len() - 1] == after[i]);
            }
        }
        assert forall|i: int|
            0 <= i < list.len() && !paths::same_file((#[trigger] list[i]).path, path) implies
            after.contains(list[i]) by {
            if i < front.len() {
                assert(front[i] == list[i]);
                let k = choose|k: int| 0 <= k < rest.len() && rest[k] == front[i];
                assert(after[k] == list[i]);
            } else {
                assert(after[rest.len() as int] == list[i]);
            }
        }
        if distinct(list) {
            assert(distinct(front)) by {
                assert forall|i: int, j: int| 0 <= i < j < front.len() implies !paths::same_file(
                    (#[trigger] front[i]).path,
                    (#[trigger] front[j]).path,
                ) by {
                    assert(!paths::same_file(list[i].path, list[j].path));
                }
            }
            assert forall|i: int, j: int| 0 <= i < j < after.len() implies !paths::same_file(
                (#[trigger] after[i]).path,
                (#[trigger] after[j]).path,
            ) by {
                assert(after[i] == rest[i]);
                if j < rest.len() {
                    assert(after[j] == rest[j]);
                } else {
                    let k = choose|k: int| 0 <= k < front.len() && front[k] == rest[i];
                    assert(!paths::same_file(list[k].path, list[list.len() - 1].path));
                }
            }
        }
    }
}

/// The history never outgrows its limit, the newest download comes on top, no file is listed
/// twice, and downloading a file again lists it once, on top.
pub proof fn history_is_bounded_and_free_of_repeats(list: Seq<Entry>, new: Entry)
    requires
        distinct(list),
    ensures
        0 < remembered(list, new).len() <= HISTORY_LIMIT,
        remembered(list, new)[0] == new,
        distinct(remembered(list, new)),
{
    lemma_without(list, new.path);
    let rest = without(list, new.path);
    let all = seq![new] + rest;
    assert(distinct(all)) by {
        assert forall|i: int, j: int| 0 <= i < j < all.len() implies !paths::same_file(
            (#[trigger] all[i]).path,
            (#[trigger] all[j]).path,
        ) by {
            assert(all[j] == rest[j - 1]);
            if i > 0 {
                assert(all[i] == rest[i - 1]);
            }
        }
    }
    assert(distinct(topmost(all))) by {
        assert forall|i: int, j: int| 0 <= i < j < topmost(all).len() implies !paths::same_file(
            (#[trigger] topmost(all)[i]).path,
            (#[trigger] topmost(all)[j]).path,
        ) by {
            assert(!paths::same_file(all[i].path, all[j].path));
        }
    }
}

/// Where there is room, no other download is forgotten.
pub proof fn other_downloads_are_kept(list: Seq<Entry>, new: Entry, i: int)
    requires
        list.len() < HISTORY_LIMIT,
        0 <= i < list.len(),
        !paths::same_file(list[i].path, new.path),
    ensures
        remembered(list, new).contains(list[i]),
{
    lemma_without(list, new.path);
    let rest = without(list, new.path);
    let k = choose|k: int| 0 <= k < rest.len() && rest[k] == list[i];
    assert(remembered(list, new)[k + 1] == list[i]);
}

/// A file is remembered by its name and its folder; by its whole path where it has no name, and
/// without a folder where it has none.
pub proof fn file_is_remembered_by_name_and_folder(file: Split)
    ensures
        entry_of(file).path == file,
        file.name is Some ==> entry_of(file).name == file.name->0,
        file.name is None ==> entry_of(file).name == file.path,
        file.parent is Some && file.parent->0.len() > 0 ==> entry_of(file).dir == file.parent
            && entry_of(file).dir_display == file.parent->0,
        file.parent is None || file.parent->0.len() == 0 ==> entry_of(file).dir is None
            && entry_of(file).dir_display.len() == 0,
{
}

proof fn lemma_without_none(list: Seq<Entry>, path: Split)
    requires
        forall|i: int| 0 <= i < list.len() ==> !paths::same_file((#[trigger] list[i]).path, path),
    ensures
        without(list, path) == list,
    decreases list.len(),
{
    if list.len() > 0 {
        let front = list.drop_last();
        assert forall|i: int| 0 <= i < front.len() implies !paths::same_file(
            (#[trigger] front[i]).path,
            path,
        ) by {
            assert(front[i] == list[i]);
        }
        lemma_without_none(front, path);
        assert(!paths::same_file(list[list.len() - 1].path, path));
        assert(front.push(list.last()) =~= list);
    }
}

/// A new file comes on top of those before it, which stay in their order; the oldest goes where
/// there would be more than fifty.
pub proof fn new_file_comes_on_top(list: Seq<Entry>, new: Entry)
    requires
        forall|i: int|
            0 <= i < list.len() ==> !paths::same_file((#[trigger] list[i]).path, new.path),
    ensures
        list.len() < 50 ==> remembered(list, new) == seq![new] + list,
        list.len() == 50 ==> remembered(list, new) == seq![new] + list.drop_last(),
{
    lemma_without_none(list, new.path);
    if list.len() == 50 {
        assert((seq![new] + list).take(50) =~= seq![new] + list.drop_last());
    }
}

/// A file that is downloaded again moves up, whatever way its path is written.
pub proof fn repeated_file_moves_up(a: Seq<Entry>, old: Entry, b: Seq<Entry>, new: Entry)
    requires
        paths::same_file(old.path, new.path),
        forall|i: int| 0 <= i < a.len() ==> !paths::same_file((#[trigger] a[i]).path, new.path),
        forall|i: int| 0 <= i < b.len() ==> !paths::same_file((#[trigger] b[i]).path, new.path),
        a.len() + b.len() < 50,
    ensures
        remembered(a.push(old) + b, new) == seq![new] + a + b,
    decreases b.len(),
{
    lemma_without_middle(a, old, b, new.path);
    assert(seq![new] + (a + b) =~= seq![new] + a + b);
}

proof fn lemma_without_middle(a: Seq<Entry>, old: Entry, b: Seq<Entry>, path: Split)
    requires
        paths::same_file(old.path, path),
        forall|i: int| 0 <= i < a.len() ==> !paths::same_file((#[trigger] a[i]).path, path),
        forall|i: int| 0 <= i < b.len() ==> !paths::same_file((#[trigger] b[i]).path, path),
    ensures
        without(a.push(old) + b, path) == a + b,
    decreases b.len(),
{
    let all = a.push(old) + b;
    if b.len() == 0 {
        assert(all =~= a.push(old));
        assert(all.drop_last() =~= a);
        lemma_without_none(a, path);
        assert(a + b =~= a);
    } else {
        let less = b.drop_last();
        assert(all.drop_last() =~= a.push(old) + less);
        assert forall|i: int| 0 <= i < less.len() implies !paths::same_file(
            (#[trigger] less[i]).path,
            path,
        ) by {
            assert(less[i] == b[i]);
        }
        lemma_without_middle(a, old, less, path);
        assert(all.last() == b[b.len() - 1]);
        assert((a + less).push(b.last()) =~= a + b);
    }
}

} // verus!
