//! The directory that is worked in, and those that were worked in lately.

use vstd::prelude::*;
use vstd::string::*;

use crate::labels;
use crate::labels::shortened;
use crate::path;
use crate::path::same_path;
use crate::settings::MAX_RECENT_DIRS;
use crate::text;
use crate::text::{optional, views};
use crate::tree;
use crate::tree::{are_subdirs, Entry};

verus! {

/// The directories that are not `dir`.
pub open spec fn without(dirs: Seq<Seq<char>>, dir: Seq<char>) -> Seq<Seq<char>>
    decreases dirs.len(),
{
    if dirs.len() == 0 {
        Seq::empty()
    } else if same_path(dirs.last(), dir) {
        without(dirs.drop_last(), dir)
    } else {
        without(dirs.drop_last(), dir).push(dirs.last())
    }
}

/// The recent directories after `dir` was used: it comes first, it comes once, and
/// there are never more than a number of them.
pub open spec fn used(dirs: Seq<Seq<char>>, dir: Seq<char>) -> Seq<Seq<char>> {
    let all = seq![dir] + without(dirs, dir);
    if all.len() > MAX_RECENT_DIRS {
        all.take(MAX_RECENT_DIRS as int)
    } else {
        all
    }
}

/// The recent directories after `dir` was used.
pub fn push_recent_dir(dirs: &Vec<String>, dir: &str) -> (r: Vec<String>)
    ensures
        views(r@) == used(views(dirs@), dir@),
{
    let ghost all = views(dirs@);
    let mut out: Vec<String> = Vec::new();
    out.push(dir.to_owned());
    assert(views(out@) =~= seq![dir@] + without(all.take(0), dir@));
    let mut i: usize = 0;
    while i < dirs.len()
        invariant
            i <= dirs@.len(),
            all == views(dirs@),
            views(out@) == seq![dir@] + without(all.take(i as int), dir@),
        decreases dirs@.len() - i,
    {
        assert(all.take(i + 1).drop_last() =~= all.take(i as int));
        assert(all.take(i + 1).last() == dirs@[i as int]@);
        if !path::is_same(dirs[i].as_str(), dir) {
            let ghost before = out@;
            let copy = dirs[i].clone();
            out.push(copy);
            assert(views(out@) =~= views(before).push(copy@));
            assert(views(out@) =~= seq![dir@] + without(all.take(i + 1), dir@));
        }
        i += 1;
    }
    assert(all.take(i as int) =~= all);
    let ghost full = out@;
    if out.len() > MAX_RECENT_DIRS {
        out.truncate(MAX_RECENT_DIRS);
        assert(views(out@) =~= views(full).take(MAX_RECENT_DIRS as int));
    }
    out
}

/// No two of them mean the same directory.
pub open spec fn distinct(dirs: Seq<Seq<char>>) -> bool {
    forall|i: int, j: int| 0 <= i < j < dirs.len() ==> !same_path(#[trigger] dirs[i], #[trigger] dirs[j])
}

proof fn lemma_without(dirs: Seq<Seq<char>>, dir: Seq<char>)
    ensures
        forall|i: int|
            0 <= i < without(dirs, dir).len() ==> !same_path(#[trigger] without(dirs, dir)[i], dir)
                && dirs.contains(without(dirs, dir)[i]),
        distinct(dirs) ==> distinct(without(dirs, dir)),
        without(dirs, dir).len() <= dirs.len(),
        forall|d: Seq<char>|
            dirs.contains(d) && !same_path(d, dir) ==> #[trigger] without(dirs, dir).contains(d),
    decreases dirs.len(),
{
    if dirs.len() > 0 {
        let rest = dirs.drop_last();
        let last = dirs.last();
        lemma_without(rest, dir);
        let w = without(rest, dir);
        let now = without(dirs, dir);
        assert forall|i: int| 0 <= i < now.len() implies !same_path(#[trigger] now[i], dir)
            && dirs.contains(now[i]) by {
            if i < w.len() {
                assert(now[i] == w[i]);
                let k = choose|k: int| 0 <= k < rest.len() && rest[k] == w[i];
                assert(dirs[k] == w[i]);
            } else {
                assert(now[i] == last);
                assert(dirs[dirs.len() - 1] == last);
            }
        }
        if distinct(dirs) {
            assert(distinct(rest)) by {
                assert forall|i: int, j: int| 0 <= i < j < rest.len() implies !same_path(
                    #[trigger] rest[i],
                    #[trigger] rest[j],
                ) by {
                    assert(rest[i] == dirs[i]);
                    assert(rest[j] == dirs[j]);
                }
            }
            assert forall|i: int, j: int| 0 <= i < j < now.len() implies !same_path(
                #[trigger] now[i],
                #[trigger] now[j],
            ) by {
                assert(now[i] == w[i]);
                if j < w.len() {
                    assert(now[j] == w[j]);
                } else {
                    let k = choose|k: int| 0 <= k < rest.len() && rest[k] == w[i];
                    assert(dirs[k] == w[i]);
                    assert(dirs[dirs.len() - 1] == last);
                }
            }
        }
        assert forall|d: Seq<char>| dirs.contains(d) && !same_path(d, dir) implies
            #[trigger] now.contains(d) by {
            let k = choose|k: int| 0 <= k < dirs.len() && dirs[k] == d;
            if k < rest.len() {
                assert(rest[k] == d);
                assert(rest.contains(d));
                assert(w.contains(d));
                let m = choose|m: int| 0 <= m < w.len() && w[m] == d;
                assert(now[m] == d);
            } else {
                assert(now[now.len() - 1] == d);
            }
        }
    }
}

/// The directory that was used comes first; the others are those that were there; none
/// comes twice; and there are never more than a number of them.
pub proof fn recent_directories_are_distinct(dirs: Seq<Seq<char>>, dir: Seq<char>)
    requires
        distinct(dirs),
    ensures
        used(dirs, dir).len() > 0,
        used(dirs, dir)[0] == dir,
        distinct(used(dirs, dir)),
        used(dirs, dir).len() <= MAX_RECENT_DIRS,
        forall|i: int|
            0 < i < used(dirs, dir).len() ==> dirs.contains(#[trigger] used(dirs, dir)[i]),
        dirs.len() < MAX_RECENT_DIRS ==> forall|d: Seq<char>|
            dirs.contains(d) && !same_path(d, dir) ==> #[trigger] used(dirs, dir).contains(d),
{
    lemma_without(dirs, dir);
    let w = without(dirs, dir);
    let all = seq![dir] + w;
    let u = used(dirs, dir);
    assert forall|i: int, j: int| 0 <= i < j < u.len() implies !same_path(
        #[trigger] u[i],
        #[trigger] u[j],
    ) by {
        assert(u[j] == w[j - 1]);
        if i > 0 {
            assert(u[i] == w[i - 1]);
        }
    }
    assert forall|i: int| 0 < i < u.len() implies dirs.contains(#[trigger] u[i]) by {
        assert(u[i] == w[i - 1]);
    }
    if dirs.len() < MAX_RECENT_DIRS {
        assert forall|d: Seq<char>| dirs.contains(d) && !same_path(d, dir) implies
            #[trigger] u.contains(d) by {
            assert(w.contains(d));
            let m = choose|m: int| 0 <= m < w.len() && w[m] == d;
            assert(u[m + 1] == d);
        }
    }
}

/// Choosing a directory: where one is, and which directories are there.
pub struct FolderPicker {
    pub cwd: String,
    pub dirs: Vec<String>,
}

impl FolderPicker {
    /// In the directory `cwd`; `listing` is what is there.
    pub fn new(cwd: String, listing: &Option<Vec<Entry>>) -> (r: Self)
        ensures
            r.cwd@ == cwd@,
            are_subdirs(views(r.dirs@), cwd@, *listing),
    {
        let dirs = tree::subdirs(cwd.as_str(), listing);
        FolderPicker { cwd, dirs }
    }

    /// Goes into a directory.
    pub fn enter_dir(&mut self, dir: String, listing: &Option<Vec<Entry>>)
        ensures
            final(self).cwd@ == dir@,
            are_subdirs(views(final(self).dirs@), dir@, *listing),
    {
        self.dirs = tree::subdirs(dir.as_str(), listing);
        self.cwd = dir;
    }

    /// Goes up to the parent directory, where there is one.
    pub fn up(&mut self, parent: Option<String>, listing: &Option<Vec<Entry>>)
        ensures
            final(self).cwd@ == match parent {
                Some(p) => p@,
                None => old(self).cwd@,
            },
            match parent {
                Some(p) => are_subdirs(views(final(self).dirs@), p@, *listing),
                None => views(final(self).dirs@) == views(old(self).dirs@),
            },
    {
        if let Some(p) = parent {
            self.enter_dir(p, listing);
        }
    }
}

/// The directory that is worked in, and those that were worked in lately, the latest
/// first.
pub struct Workspace {
    pub root: String,
    pub recent_dirs: Vec<String>,
}

impl Workspace {
    /// Works in another directory, where it is one. Says what is to be said; the second
    /// part says whether the directory is to be read.
    pub fn set_root_dir(&mut self, dir: String, is_dir: bool) -> (r: (String, bool))
        ensures
            r.1 == is_dir,
            is_dir ==> {
                &&& final(self).root@ == dir@
                &&& views(final(self).recent_dirs@) == used(views(old(self).recent_dirs@), dir@)
                &&& r.0@ == "工作区目录："@ + shortened(dir@)
            },
            !is_dir ==> {
                &&& final(self).root@ == old(self).root@
                &&& views(final(self).recent_dirs@) == views(old(self).recent_dirs@)
                &&& r.0@ == shortened(dir@) + " 不是一个目录"@
            },
    {
        let short = labels::short_path(dir.as_str());
        if !is_dir {
            return (text::both(short.as_str(), " 不是一个目录"), false);
        }
        self.recent_dirs = push_recent_dir(&self.recent_dirs, dir.as_str());
        self.root = dir;
        (text::both("工作区目录：", short.as_str()), true)
    }

    /// The recent directory at `index`.
    pub fn recent(&self, index: usize) -> (r: Option<String>)
        ensures
            optional(r) == if index < self.recent_dirs@.len() {
                Some(self.recent_dirs@[index as int]@)
            } else {
                None
            },
    {
        if index < self.recent_dirs.len() {
            Some(self.recent_dirs[index].clone())
        } else {
            None
        }
    }

    /// Works in the recent directory at `index`. One that is not there any more is
    /// forgotten. Says what is to be said, and whether the directory is to be read.
    pub fn use_recent_dir(&mut self, index: usize, is_dir: bool) -> (r: Option<(String, bool)>)
        ensures
            r is Some == (index < old(self).recent_dirs@.len()),
            r is None ==> final(self).root@ == old(self).root@ && views(final(self).recent_dirs@)
                == views(old(self).recent_dirs@),
            r matches Some((message, read)) ==> {
                let dir = views(old(self).recent_dirs@)[index as int];
                &&& read == is_dir
                &&& is_dir ==> {
                    &&& final(self).root@ == dir
                    &&& views(final(self).recent_dirs@) == used(views(old(self).recent_dirs@), dir)
                    &&& message@ == "工作区目录："@ + shortened(dir)
                }
                &&& !is_dir ==> {
                    &&& final(self).root@ == old(self).root@
                    &&& views(final(self).recent_dirs@) == views(old(self).recent_dirs@).remove(
                        index as int,
                    )
                    &&& message@ == shortened(dir) + " 已经不存在了，从最近列表里去掉"@
                }
            },
    {
        let dir = match self.recent(index) {
            Some(d) => d,
            None => {
                return None;
            },
        };
        if !is_dir {
            let ghost before = self.recent_dirs@;
            self.recent_dirs.remove(index);
            assert(views(self.recent_dirs@) =~= views(before).remove(index as int));
            let short = labels::short_path(dir.as_str());
            return Some(
                (text::both(short.as_str(), " 已经不存在了，从最近列表里去掉"), false),
            );
        }
        Some(self.set_root_dir(dir, true))
    }
}

proof fn lemma_without_adds(a: Seq<Seq<char>>, b: Seq<Seq<char>>, dir: Seq<char>)
    ensures
        without(a + b, dir) == without(a, dir) + without(b, dir),
    decreases b.len(),
{
    if b.len() == 0 {
        assert(a + b =~= a);
        assert(without(a, dir) + without(b, dir) =~= without(a, dir));
    } else {
        lemma_without_adds(a, b.drop_last(), dir);
        assert((a + b).drop_last() =~= a + b.drop_last());
        assert(without(a + b, dir) =~= without(a, dir) + without(b, dir));
    }
}

/// Using a directory moves it to the front and leaves the others in their order, wherever it
/// was; the last ones go where there are too many.
pub proof fn used_directories_move_to_the_front(
    a: Seq<Seq<char>>,
    dir: Seq<char>,
    b: Seq<Seq<char>>,
)
    requires
        forall|i: int| 0 <= i < a.len() ==> !same_path(#[trigger] a[i], dir),
        forall|i: int| 0 <= i < b.len() ==> !same_path(#[trigger] b[i], dir),
    ensures
        used(a + seq![dir] + b, dir) == first_dirs(seq![dir] + a + b),
        used(a + b, dir) == first_dirs(seq![dir] + a + b),
{
    lemma_without_adds(a + seq![dir], b, dir);
    lemma_without_adds(a, seq![dir], dir);
    lemma_without_adds(a, b, dir);
    lemma_without_none(a, dir);
    lemma_without_none(b, dir);
    reveal_with_fuel(without, 2);
    assert(seq![dir].drop_last() =~= Seq::empty());
    assert(without(seq![dir], dir) =~= Seq::empty());
    assert(without(a + seq![dir] + b, dir) =~= a + b);
    assert(without(a + b, dir) =~= a + b);
    assert(seq![dir] + (a + b) =~= seq![dir] + a + b);
}

/// As many of the directories as are remembered.
pub open spec fn first_dirs(dirs: Seq<Seq<char>>) -> Seq<Seq<char>> {
    if dirs.len() <= MAX_RECENT_DIRS {
        dirs
    } else {
        dirs.take(MAX_RECENT_DIRS as int)
    }
}

proof fn lemma_without_none(dirs: Seq<Seq<char>>, dir: Seq<char>)
    requires
        forall|i: int| 0 <= i < dirs.len() ==> !same_path(#[trigger] dirs[i], dir),
    ensures
        without(dirs, dir) == dirs,
    decreases dirs.len(),
{
    if dirs.len() > 0 {
        let some = dirs.drop_last();
        assert forall|i: int| 0 <= i < some.len() implies !same_path(#[trigger] some[i], dir) by {
            assert(some[i] == dirs[i]);
        }
        lemma_without_none(some, dir);
        assert(!same_path(dirs[dirs.len() - 1], dir));
        assert(without(dirs, dir) =~= dirs);
    } else {
        assert(without(dirs, dir) =~= dirs);
    }
}

} // verus!
