//! Maps from paths to file contents, as handed to and returned by the patch
//! engine. Paths are unique; `insert` replaces an earlier entry.

use vstd::prelude::*;
use crate::text::str_eq;

verus! {

pub open spec fn opt_view(o: Option<String>) -> Option<Seq<char>> {
    match o {
        Some(s) => Some(s@),
        None => None,
    }
}

/// The contents of files before a patch, by path.
#[derive(Debug, Clone)]
pub struct FileContents {
    entries: Vec<(String, String)>,
}

impl FileContents {
    pub closed spec fn wf(&self) -> bool {
        forall|i: int, j: int| 0 <= i < j < self.entries@.len() ==> self.entries@[i].0@ != self.entries@[j].0@
    }

    pub closed spec fn view(&self) -> Map<Seq<char>, Seq<char>> {
        Map::new(
            |k: Seq<char>| exists|i: int| 0 <= i < self.entries@.len() && self.entries@[i].0@ == k,
            |k: Seq<char>| self.entries@[choose|i: int| 0 <= i < self.entries@.len() && self.entries@[i].0@ == k].1@,
        )
    }

    /// No files.
    pub fn new() -> (r: Self)
        ensures
            r.wf(),
            r.view() == Map::<Seq<char>, Seq<char>>::empty(),
    {
        let r = FileContents { entries: Vec::new() };
        assert(r.view() =~= Map::<Seq<char>, Seq<char>>::empty());
        r
    }

    fn find(&self, path: &str) -> (r: Option<usize>)
        requires
            self.wf(),
        ensures
            r matches Some(i) ==> i < self.entries@.len() && self.entries@[i as int].0@ == path@,
            r is None ==> forall|i: int| 0 <= i < self.entries@.len() ==> self.entries@[i].0@ != path@,
    {
        let mut i: usize = 0;
        while i < self.entries.len()
            invariant
                i <= self.entries@.len(),
                forall|j: int| 0 <= j < i ==> self.entries@[j].0@ != path@,
            decreases self.entries.len() - i,
        {
            if str_eq(self.entries[i].0.as_str(), path) {
                return Some(i);
            }
            i += 1;
        }
        None
    }

    /// The contents recorded for `path`.
    pub fn get(&self, path: &str) -> (r: Option<&String>)
        requires
            self.wf(),
        ensures
            r matches Some(v) ==> self.view().contains_key(path@) && self.view()[path@] == v@,
            r is None ==> !self.view().contains_key(path@),
    {
        match self.find(path) {
            Some(i) => {
                let ghost k = choose|j: int| 0 <= j < self.entries@.len() && self.entries@[j].0@ == path@;
                assert(k == i);
                Some(&self.entries[i].1)
            },
            None => None,
        }
    }

    /// Records `content` for `path`, replacing what was there.
    pub fn insert(&mut self, path: String, content: String)
        requires
            old(self).wf(),
        ensures
            final(self).wf(),
            final(self).view() == old(self).view().insert(path@, content@),
    {
        match self.find(path.as_str()) {
            Some(i) => {
                let ghost pv = path@;
                let ghost cv = content@;
                self.entries.set(i, (path, content));
                assert forall|k: Seq<char>| #[trigger] self.view().contains_key(k) == old(self).view().insert(pv, cv).contains_key(k) by {
                    if k != pv {
                        if old(self).view().contains_key(k) {
                            let j = choose|j: int| 0 <= j < old(self).entries@.len() && old(self).entries@[j].0@ == k;
                            assert(self.entries@[j].0@ == k);
                        }
                        if self.view().contains_key(k) {
                            let j = choose|j: int| 0 <= j < self.entries@.len() && self.entries@[j].0@ == k;
                            assert(old(self).entries@[j].0@ == k);
                        }
                    } else {
                        assert(self.entries@[i as int].0@ == k);
                    }
                }
                assert(self.view() =~= old(self).view().insert(pv, cv));
            },
            None => {
                let ghost pv = path@;
                let ghost cv = content@;
                let ghost n = self.entries@.len();
                self.entries.push((path, content));
                assert forall|k: Seq<char>| #[trigger] self.view().contains_key(k) == old(self).view().insert(pv, cv).contains_key(k) by {
                    if k != pv {
                        if old(self).view().contains_key(k) {
                            let j = choose|j: int| 0 <= j < old(self).entries@.len() && old(self).entries@[j].0@ == k;
                            assert(self.entries@[j].0@ == k);
                        }
                        if self.view().contains_key(k) {
                            let j = choose|j: int| 0 <= j < self.entries@.len() && self.entries@[j].0@ == k;
                            assert(j != n);
                            assert(old(self).entries@[j].0@ == k);
                        }
                    } else {
                        assert(self.entries@[n as int].0@ == k);
                    }
                }
                assert(self.view() =~= old(self).view().insert(pv, cv));
            },
        }
    }
}

/// The outcome of a patch: for each touched path, its new contents, or
/// `None` where the file is to be deleted.
#[derive(Debug, Clone)]
pub struct FileChanges {
    entries: Vec<(String, Option<String>)>,
}

impl FileChanges {
    pub closed spec fn wf(&self) -> bool {
        forall|i: int, j: int| 0 <= i < j < self.entries@.len() ==> self.entries@[i].0@ != self.entries@[j].0@
    }

    pub closed spec fn view(&self) -> Map<Seq<char>, Option<Seq<char>>> {
        Map::new(
            |k: Seq<char>| exists|i: int| 0 <= i < self.entries@.len() && self.entries@[i].0@ == k,
            |k: Seq<char>| opt_view(self.entries@[choose|i: int| 0 <= i < self.entries@.len() && self.entries@[i].0@ == k].1),
        )
    }

    /// No changes.
    pub fn new() -> (r: Self)
        ensures
            r.wf(),
            r.view() == Map::<Seq<char>, Option<Seq<char>>>::empty(),
    {
        let r = FileChanges { entries: Vec::new() };
        assert(r.view() =~= Map::<Seq<char>, Option<Seq<char>>>::empty());
        r
    }

    fn find(&self, path: &str) -> (r: Option<usize>)
        requires
            self.wf(),
        ensures
            r matches Some(i) ==> i < self.entries@.len() && self.entries@[i as int].0@ == path@,
            r is None ==> forall|i: int| 0 <= i < self.entries@.len() ==> self.entries@[i].0@ != path@,
    {
        let mut i: usize = 0;
        while i < self.entries.len()
            invariant
                i <= self.entries@.len(),
                forall|j: int| 0 <= j < i ==> self.entries@[j].0@ != path@,
            decreases self.entries.len() - i,
        {
            if str_eq(self.entries[i].0.as_str(), path) {
                return Some(i);
            }
            i += 1;
        }
        None
    }

    /// The change recorded for `path`.
    pub fn get(&self, path: &str) -> (r: Option<&Option<String>>)
        requires
            self.wf(),
        ensures
            r matches Some(v) ==> self.view().contains_key(path@) && self.view()[path@] == opt_view(*v),
            r is None ==> !self.view().contains_key(path@),
    {
        match self.find(path) {
            Some(i) => {
                let ghost k = choose|j: int| 0 <= j < self.entries@.len() && self.entries@[j].0@ == path@;
                assert(k == i);
                Some(&self.entries[i].1)
            },
            None => None,
        }
    }

    /// All changes, one entry per path.
    pub fn entries(&self) -> (r: &Vec<(String, Option<String>)>)
        requires
            self.wf(),
        ensures
            forall|i: int| 0 <= i < r@.len() ==> self.view().contains_key(#[trigger] r@[i].0@)
                && self.view()[r@[i].0@] == opt_view(r@[i].1),
            forall|k: Seq<char>| self.view().contains_key(k) ==> exists|i: int| 0 <= i < r@.len() && #[trigger] r@[i].0@ == k,
    {
        assert forall|i: int| 0 <= i < self.entries@.len() implies self.view().contains_key(#[trigger] self.entries@[i].0@)
            && self.view()[self.entries@[i].0@] == opt_view(self.entries@[i].1) by {
            let k = self.entries@[i].0@;
            let j = choose|j: int| 0 <= j < self.entries@.len() && self.entries@[j].0@ == k;
            assert(j == i);
        }
        &self.entries
    }

    /// Records `change` for `path`, replacing what was there.
    pub fn insert(&mut self, path: String, change: Option<String>)
        requires
            old(self).wf(),
        ensures
            final(self).wf(),
            final(self).view() == old(self).view().insert(path@, opt_view(change)),
    {
        match self.find(path.as_str()) {
            Some(i) => {
                let ghost pv = path@;
                let ghost cv = opt_view(change);
                self.entries.set(i, (path, change));
                assert forall|k: Seq<char>| #[trigger] self.view().contains_key(k) == old(self).view().insert(pv, cv).contains_key(k) by {
                    if k != pv {
                        if old(self).view().contains_key(k) {
                            let j = choose|j: int| 0 <= j < old(self).entries@.len() && old(self).entries@[j].0@ == k;
                            assert(self.entries@[j].0@ == k);
                        }
                        if self.view().contains_key(k) {
                            let j = choose|j: int| 0 <= j < self.entries@.len() && self.entries@[j].0@ == k;
                            assert(old(self).entries@[j].0@ == k);
                        }
                    } else {
                        assert(self.entries@[i as int].0@ == k);
                    }
                }
                assert(self.view() =~= old(self).view().insert(pv, cv));
            },
            None => {
                let ghost pv = path@;
                let ghost cv = opt_view(change);
                let ghost n = self.entries@.len();
                self.entries.push((path, change));
                assert forall|k: Seq<char>| #[trigger] self.view().contains_key(k) == old(self).view().insert(pv, cv).contains_key(k) by {
                    if k != pv {
                        if old(self).view().contains_key(k) {
                            let j = choose|j: int| 0 <= j < old(self).entries@.len() && old(self).entries@[j].0@ == k;
                            assert(self.entries@[j].0@ == k);
                        }
                        if self.view().contains_key(k) {
                            let j = choose|j: int| 0 <= j < self.entries@.len() && self.entries@[j].0@ == k;
                            assert(j != n);
                            assert(old(self).entries@[j].0@ == k);
                        }
                    } else {
                        assert(self.entries@[n as int].0@ == k);
                    }
                }
                assert(self.view() =~= old(self).view().insert(pv, cv));
            },
        }
    }
}

} // verus!
