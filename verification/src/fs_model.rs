//! Filesystem state as the installer sees it.
//!
//! The installer's whole effect is on files: which paths exist, what bytes
//! they hold, whether they are executable, and whether they carry the
//! platform security label. [`FsModel`] holds exactly that state, together
//! with a permission model (paths on which writes or labeling are refused)
//! so that every failure the installer must report has a state that causes
//! it. The surrounding binary materializes an [`FsModel`] on disk;
//! everything decided about the state — contents, order, labels,
//! fail-fast behaviour — is verified here.

use vstd::prelude::*;

use crate::errors::{LabelError, WriteError};

verus! {

/// One file: its content bytes, its executable bit, and whether the
/// security label has been applied to it.
pub struct FileState {
    pub data: Vec<u8>,
    pub executable: bool,
    pub labeled: bool,
}

/// Mathematical value of a [`FileState`].
#[verifier::ext_equal]
pub struct FileView {
    pub data: Seq<u8>,
    pub executable: bool,
    pub labeled: bool,
}

impl View for FileState {
    type V = FileView;

    open spec fn view(&self) -> FileView {
        FileView { data: self.data@, executable: self.executable, labeled: self.labeled }
    }
}

/// Mathematical value of an [`FsModel`]: the files by path, and the paths
/// on which the two fallible primitives are refused.
#[verifier::ext_equal]
pub struct FsView {
    pub files: Map<Seq<char>, FileView>,
    pub write_denied: Set<Seq<char>>,
    pub label_denied: Set<Seq<char>>,
}

/// The file at `path`, if one exists.
pub open spec fn file_at(fs: FsView, path: Seq<char>) -> Option<FileView> {
    if fs.files.contains_key(path) {
        Some(fs.files[path])
    } else {
        None
    }
}

/// The destination already holds exactly `data` and is executable.
pub open spec fn installed(fs: FsView, path: Seq<char>, data: Seq<u8>) -> bool {
    match file_at(fs, path) {
        Some(f) => f.data == data && f.executable,
        None => false,
    }
}

/// The idempotent write primitive succeeds: either the destination is
/// already correct (a no-op) or writing to it is permitted.
pub open spec fn write_ok(fs: FsView, path: Seq<char>, data: Seq<u8>) -> bool {
    installed(fs, path, data) || !fs.write_denied.contains(path)
}

/// Effect of a successful idempotent write: a no-op when the destination
/// is already correct, otherwise the file is replaced by an executable,
/// not-yet-labeled copy of `data`.
pub open spec fn do_write(fs: FsView, path: Seq<char>, data: Seq<u8>) -> FsView {
    if installed(fs, path, data) {
        fs
    } else {
        FsView {
            files: fs.files.insert(
                path,
                FileView { data: data, executable: true, labeled: false },
            ),
            write_denied: fs.write_denied,
            label_denied: fs.label_denied,
        }
    }
}

/// The labeling primitive succeeds: the file exists and labeling the path
/// is permitted.
pub open spec fn label_ok(fs: FsView, path: Seq<char>) -> bool {
    file_at(fs, path) is Some && !fs.label_denied.contains(path)
}

/// Effect of a successful labeling step: the file's label bit is set;
/// content and executable bit are untouched.
pub open spec fn do_label(fs: FsView, path: Seq<char>) -> FsView {
    match file_at(fs, path) {
        Some(f) => FsView {
            files: fs.files.insert(
                path,
                FileView { data: f.data, executable: f.executable, labeled: true },
            ),
            write_denied: fs.write_denied,
            label_denied: fs.label_denied,
        },
        None => fs,
    }
}

/// One stored file of the model.
pub struct FsEntry {
    pub path: String,
    pub file: FileState,
}

/// Paths of the entries are pairwise distinct.
pub open spec fn paths_unique(es: Seq<FsEntry>) -> bool {
    forall|i: int, j: int| 0 <= i < j < es.len() ==> es[i].path@ != es[j].path@
}

/// The entries as a map from path to file.
pub open spec fn entries_map(es: Seq<FsEntry>) -> Map<Seq<char>, FileView>
    decreases es.len(),
{
    if es.len() == 0 {
        Map::<Seq<char>, FileView>::empty()
    } else {
        entries_map(es.drop_last()).insert(es.last().path@, es.last().file@)
    }
}

/// The set of path views of a list of paths.
pub open spec fn path_set(v: Seq<String>) -> Set<Seq<char>> {
    Set::new(|p: Seq<char>| exists|i: int| 0 <= i < v.len() && v[i]@ == p)
}

proof fn lemma_entries_map_push(es: Seq<FsEntry>, e: FsEntry)
    ensures
        entries_map(es.push(e)) == entries_map(es).insert(e.path@, e.file@),
{
    assert(es.push(e).drop_last() =~= es);
    assert(es.push(e).last() == e);
}

proof fn lemma_entries_map_contains(es: Seq<FsEntry>, p: Seq<char>)
    ensures
        entries_map(es).contains_key(p) <==> exists|i: int|
            0 <= i < es.len() && es[i].path@ == p,
    decreases es.len(),
{
    if es.len() > 0 {
        let n = es.len() - 1;
        lemma_entries_map_contains(es.drop_last(), p);
        if es.last().path@ == p {
            assert(es[n].path@ == p);
        } else {
            if exists|i: int| 0 <= i < es.len() && es[i].path@ == p {
                let i = choose|i: int| 0 <= i < es.len() && es[i].path@ == p;
                assert(i < n);
                assert(es.drop_last()[i].path@ == p);
            }
            if exists|i: int| 0 <= i < es.drop_last().len() && es.drop_last()[i].path@ == p {
                let i = choose|i: int|
                    0 <= i < es.drop_last().len() && es.drop_last()[i].path@ == p;
                assert(es[i].path@ == p);
            }
        }
    }
}

proof fn lemma_entries_map_index(es: Seq<FsEntry>, i: int)
    requires
        paths_unique(es),
        0 <= i < es.len(),
    ensures
        entries_map(es).contains_key(es[i].path@),
        entries_map(es)[es[i].path@] == es[i].file@,
    decreases es.len(),
{
    let n = es.len() - 1;
    if i < n {
        assert(paths_unique(es.drop_last()));
        lemma_entries_map_index(es.drop_last(), i);
        assert(es.drop_last()[i] == es[i]);
        assert(es[n].path@ != es[i].path@);
    }
}

proof fn lemma_entries_map_update(es: Seq<FsEntry>, i: int, e: FsEntry)
    requires
        paths_unique(es),
        0 <= i < es.len(),
        es[i].path@ == e.path@,
    ensures
        entries_map(es.update(i, e)) == entries_map(es).insert(e.path@, e.file@),
    decreases es.len(),
{
    let n = es.len() - 1;
    let es2 = es.update(i, e);
    if i == n {
        assert(es2.drop_last() =~= es.drop_last());
        assert(es2.last() == e);
        assert(entries_map(es.drop_last()).insert(e.path@, e.file@) =~= entries_map(
            es.drop_last(),
        ).insert(es[n].path@, es[n].file@).insert(e.path@, e.file@));
    } else {
        assert(es2.drop_last() =~= es.drop_last().update(i, e));
        assert(es2.last() == es.last());
        assert(paths_unique(es.drop_last()));
        assert(es.drop_last()[i] == es[i]);
        lemma_entries_map_update(es.drop_last(), i, e);
        assert(es[n].path@ != e.path@);
        assert(entries_map(es.drop_last()).insert(e.path@, e.file@).insert(
            es[n].path@,
            es[n].file@,
        ) =~= entries_map(es.drop_last()).insert(es[n].path@, es[n].file@).insert(
            e.path@,
            e.file@,
        ));
    }
}

/// Copies a byte vector.
fn copy_bytes(v: &Vec<u8>) -> (r: Vec<u8>)
    ensures
        r@ == v@,
{
    let n = v.len();
    let mut r: Vec<u8> = Vec::new();
    let mut i: usize = 0;
    while i < n
        invariant
            0 <= i <= n,
            n == v@.len(),
            r@ == v@.subrange(0, i as int),
        decreases n - i,
    {
        r.push(v[i]);
        proof {
            assert(r@ =~= v@.subrange(0, i + 1 as int));
        }
        i += 1;
    }
    proof {
        assert(r@ =~= v@);
    }
    r
}

/// Compares two byte vectors for exact equality of contents.
fn bytes_eq(a: &Vec<u8>, b: &Vec<u8>) -> (r: bool)
    ensures
        r == (a@ == b@),
{
    let n = a.len();
    if n != b.len() {
        return false;
    }
    let mut i: usize = 0;
    while i < n
        invariant
            0 <= i <= n,
            n == a@.len(),
            n == b@.len(),
            forall|j: int| 0 <= j < i ==> a@[j] == b@[j],
        decreases n - i,
    {
        if a[i] != b[i] {
            return false;
        }
        i += 1;
    }
    proof {
        assert(a@ =~= b@);
    }
    true
}

/// Membership of a path in a list of denied paths.
fn list_contains(v: &Vec<String>, path: &String) -> (r: bool)
    ensures
        r == path_set(v@).contains(path@),
{
    let n = v.len();
    let mut i: usize = 0;
    while i < n
        invariant
            0 <= i <= n,
            n == v@.len(),
            forall|j: int| 0 <= j < i ==> v@[j]@ != path@,
        decreases n - i,
    {
        if v[i] == *path {
            proof {
                assert(v@[i as int]@ == path@);
            }
            return true;
        }
        i += 1;
    }
    proof {
        if path_set(v@).contains(path@) {
            let j = choose|j: int| 0 <= j < v@.len() && v@[j]@ == path@;
            assert(v@[j]@ != path@);
        }
    }
    false
}

/// The filesystem state the installer works on.
pub struct FsModel {
    entries: Vec<FsEntry>,
    write_denied: Vec<String>,
    label_denied: Vec<String>,
}

impl View for FsModel {
    type V = FsView;

    closed spec fn view(&self) -> FsView {
        FsView {
            files: entries_map(self.entries@),
            write_denied: path_set(self.write_denied@),
            label_denied: path_set(self.label_denied@),
        }
    }
}

impl FsModel {
    /// Entry paths are pairwise distinct.
    pub closed spec fn wf(&self) -> bool {
        paths_unique(self.entries@)
    }

    /// An empty filesystem on which every path may be written and labeled.
    pub fn new() -> (r: FsModel)
        ensures
            r.wf(),
            r@.files == Map::<Seq<char>, FileView>::empty(),
            r@.write_denied == Set::<Seq<char>>::empty(),
            r@.label_denied == Set::<Seq<char>>::empty(),
    {
        let r = FsModel { entries: Vec::new(), write_denied: Vec::new(), label_denied: Vec::new() };
        proof {
            assert(r@.write_denied =~= Set::<Seq<char>>::empty());
            assert(r@.label_denied =~= Set::<Seq<char>>::empty());
        }
        r
    }

    /// Marks a path as refusing writes, modeling a permission or I/O
    /// failure of the write primitive there.
    pub fn deny_write(&mut self, path: String)
        requires
            old(self).wf(),
        ensures
            final(self).wf(),
            final(self)@.files == old(self)@.files,
            final(self)@.write_denied == old(self)@.write_denied.insert(path@),
            final(self)@.label_denied == old(self)@.label_denied,
    {
        let ghost v0 = self.write_denied@;
        self.write_denied.push(path);
        proof {
            assert forall|p: Seq<char>| #[trigger] path_set(self.write_denied@).contains(p)
                implies path_set(v0).insert(path@).contains(p) by {
                let i = choose|i: int|
                    0 <= i < self.write_denied@.len() && self.write_denied@[i]@ == p;
                if i < v0.len() {
                    assert(v0[i]@ == p);
                }
            }
            assert forall|p: Seq<char>| #[trigger] path_set(v0).insert(path@).contains(p)
                implies path_set(self.write_denied@).contains(p) by {
                if p == path@ {
                    assert(self.write_denied@[v0.len() as int]@ == p);
                } else {
                    let i = choose|i: int| 0 <= i < v0.len() && v0[i]@ == p;
                    assert(self.write_denied@[i]@ == p);
                }
            }
            assert(path_set(self.write_denied@) =~= path_set(v0).insert(path@));
        }
    }

    /// Marks a path as refusing the security label, modeling a failure of
    /// the labeling facility there.
    pub fn deny_label(&mut self, path: String)
        requires
            old(self).wf(),
        ensures
            final(self).wf(),
            final(self)@.files == old(self)@.files,
            final(self)@.write_denied == old(self)@.write_denied,
            final(self)@.label_denied == old(self)@.label_denied.insert(path@),
    {
        let ghost v0 = self.label_denied@;
        self.label_denied.push(path);
        proof {
            assert forall|p: Seq<char>| #[trigger] path_set(self.label_denied@).contains(p)
                implies path_set(v0).insert(path@).contains(p) by {
                let i = choose|i: int|
                    0 <= i < self.label_denied@.len() && self.label_denied@[i]@ == p;
                if i < v0.len() {
                    assert(v0[i]@ == p);
                }
            }
            assert forall|p: Seq<char>| #[trigger] path_set(v0).insert(path@).contains(p)
                implies path_set(self.label_denied@).contains(p) by {
                if p == path@ {
                    assert(self.label_denied@[v0.len() as int]@ == p);
                } else {
                    let i = choose|i: int| 0 <= i < v0.len() && v0[i]@ == p;
                    assert(self.label_denied@[i]@ == p);
                }
            }
            assert(path_set(self.label_denied@) =~= path_set(v0).insert(path@));
        }
    }

    /// Index of the entry at `path`, if one exists.
    fn find_entry(&self, path: &String) -> (r: Option<usize>)
        ensures
            match r {
                Some(i) => i < self.entries@.len() && self.entries@[i as int].path@ == path@,
                None => forall|i: int|
                    0 <= i < self.entries@.len() ==> self.entries@[i].path@ != path@,
            },
    {
        let n = self.entries.len();
        let mut i: usize = 0;
        while i < n
            invariant
                0 <= i <= n,
                n == self.entries@.len(),
                forall|j: int| 0 <= j < i ==> self.entries@[j].path@ != path@,
            decreases n - i,
        {
            if self.entries[i].path == *path {
                return Some(i);
            }
            i += 1;
        }
        None
    }

    /// The idempotent write primitive: leaves the destination alone when it
    /// already holds exactly `data` and is executable; otherwise replaces
    /// it with an executable copy of `data`, or fails — leaving the state
    /// unchanged — when writing to the path is denied.
    pub fn ensure_binary(&mut self, path: &String, data: &Vec<u8>) -> (r: Result<(), WriteError>)
        requires
            old(self).wf(),
        ensures
            final(self).wf(),
            r matches Ok(()) <==> write_ok(old(self)@, path@, data@),
            r matches Ok(()) ==> final(self)@ == do_write(old(self)@, path@, data@),
            r matches Err(_) ==> *final(self) == *old(self),
    {
        let found = self.find_entry(path);
        if let Some(i) = found {
            proof {
                lemma_entries_map_index(self.entries@, i as int);
            }
            let same = bytes_eq(&self.entries[i].file.data, data);
            if same && self.entries[i].file.executable {
                proof {
                    assert(installed(self@, path@, data@));
                }
                return Ok(());
            }
        }
        proof {
            match found {
                Some(i) => {
                    lemma_entries_map_index(self.entries@, i as int);
                    assert(!installed(self@, path@, data@));
                }
                None => {
                    lemma_entries_map_contains(self.entries@, path@);
                    assert(!self@.files.contains_key(path@));
                    assert(!installed(self@, path@, data@));
                }
            }
        }
        if list_contains(&self.write_denied, path) {
            return Err(WriteError::Denied);
        }
        let ghost es0 = self.entries@;
        let file = FileState { data: copy_bytes(data), executable: true, labeled: false };
        let entry = FsEntry { path: path.clone(), file };
        match found {
            Some(i) => {
                self.entries.set(i, entry);
                proof {
                    lemma_entries_map_update(es0, i as int, self.entries@[i as int]);
                    assert(paths_unique(self.entries@));
                }
            }
            None => {
                self.entries.push(entry);
                proof {
                    lemma_entries_map_push(es0, self.entries@.last());
                    assert forall|i: int, j: int|
                        0 <= i < j < self.entries@.len() implies self.entries@[i].path@
                        != self.entries@[j].path@ by {
                        if j == self.entries@.len() - 1 {
                            assert(es0[i].path@ != path@);
                        } else {
                            assert(es0[i].path@ != es0[j].path@);
                        }
                    }
                }
            }
        }
        proof {
            assert(self@ =~= do_write(old(self)@, path@, data@));
        }
        Ok(())
    }

    /// The labeling primitive: sets the security label bit of an existing
    /// file, or fails — leaving the state unchanged — when no file exists
    /// at the path or labeling it is denied.
    pub fn set_label(&mut self, path: &String) -> (r: Result<(), LabelError>)
        requires
            old(self).wf(),
        ensures
            final(self).wf(),
            r matches Ok(()) <==> label_ok(old(self)@, path@),
            r matches Ok(()) ==> final(self)@ == do_label(old(self)@, path@),
            r matches Err(e) ==> *final(self) == *old(self) && e == (
                if file_at(old(self)@, path@) is None {
                    LabelError::Missing
                } else {
                    LabelError::Denied
                }
            ),
    {
        let found = self.find_entry(path);
        let i = match found {
            Some(i) => i,
            None => {
                proof {
                    lemma_entries_map_contains(self.entries@, path@);
                }
                return Err(LabelError::Missing);
            }
        };
        proof {
            lemma_entries_map_index(self.entries@, i as int);
        }
        if list_contains(&self.label_denied, path) {
            return Err(LabelError::Denied);
        }
        let ghost es0 = self.entries@;
        let data_copy = copy_bytes(&self.entries[i].file.data);
        let executable = self.entries[i].file.executable;
        let entry = FsEntry {
            path: path.clone(),
            file: FileState { data: data_copy, executable, labeled: true },
        };
        self.entries.set(i, entry);
        proof {
            lemma_entries_map_update(es0, i as int, self.entries@[i as int]);
            assert(paths_unique(self.entries@));
            assert(self@ =~= do_label(old(self)@, path@));
        }
        Ok(())
    }

    /// The file at `path`, if any.
    pub fn get_file(&self, path: &String) -> (r: Option<&FileState>)
        requires
            self.wf(),
        ensures
            match r {
                Some(f) => file_at(self@, path@) == Some(f@),
                None => file_at(self@, path@) is None,
            },
    {
        match self.find_entry(path) {
            Some(i) => {
                proof {
                    lemma_entries_map_index(self.entries@, i as int);
                }
                Some(&self.entries[i].file)
            }
            None => {
                proof {
                    lemma_entries_map_contains(self.entries@, path@);
                }
                None
            }
        }
    }

    /// The paths of all files, so that a caller can walk the state and
    /// materialize it.
    pub fn installed_paths(&self) -> (r: Vec<String>)
        requires
            self.wf(),
        ensures
            forall|i: int| 0 <= i < r@.len() ==> file_at(self@, #[trigger] r@[i]@) is Some,
            forall|p: Seq<char>|
                file_at(self@, p) is Some ==> exists|i: int| 0 <= i < r@.len() && r@[i]@ == p,
    {
        let n = self.entries.len();
        let mut r: Vec<String> = Vec::new();
        let mut i: usize = 0;
        while i < n
            invariant
                0 <= i <= n,
                n == self.entries@.len(),
                self.wf(),
                r@.len() == i,
                forall|j: int| 0 <= j < i ==> r@[j]@ == self.entries@[j].path@,
            decreases n - i,
        {
            r.push(self.entries[i].path.clone());
            i += 1;
        }
        proof {
            assert forall|i: int| 0 <= i < r@.len() implies file_at(
                self@,
                #[trigger] r@[i]@,
            ) is Some by {
                lemma_entries_map_index(self.entries@, i);
            }
            assert forall|p: Seq<char>| file_at(self@, p) is Some implies exists|i: int|
                0 <= i < r@.len() && r@[i]@ == p by {
                lemma_entries_map_contains(self.entries@, p);
                let j = choose|j: int|
                    0 <= j < self.entries@.len() && self.entries@[j].path@ == p;
                assert(r@[j]@ == p);
            }
        }
        r
    }
}

} // verus!
