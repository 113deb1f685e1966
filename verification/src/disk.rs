//! An in-memory model of the blob directory tree.
//!
//! The repository flows are verified against this model: a flat collection
//! of directories, each holding an ordered list of named files.  The
//! surrounding binary mirrors every operation onto the real filesystem.
//!
//! Real directory operations can fail, and the protocol's whole point is
//! what happens then, so the model carries a single-shot fault countdown:
//! `fault_after(k)` makes the `k`-th subsequent fallible operation fail.
//! An operation that performs no filesystem work (creating a directory that
//! already exists) does not advance the countdown.

use vstd::prelude::*;

verus! {

/// A directory's contents: `(name, data)` pairs in creation order.
pub type DirV = Seq<(Seq<char>, Seq<u8>)>;

/// The directory tree: directory path to contents.
pub type FsMap = Map<Seq<char>, DirV>;

/// How a modelled filesystem operation can fail.
#[derive(Debug)]
pub enum StorageError {
    /// An injected I/O fault.
    Fault,
    /// The directory to act on does not exist.
    Missing,
}

struct FileEntry {
    name: String,
    data: Vec<u8>,
}

struct DirEntry {
    path: String,
    files: Vec<FileEntry>,
}

/// One fallible operation was attempted: the countdown advances.
pub open spec fn plan_ticks(p: Option<u64>) -> Option<u64> {
    match p {
        Some(k) => if k == 0 {
            None
        } else {
            Some((k - 1) as u64)
        },
        None => None,
    }
}

/// The next fallible operation fails.
pub open spec fn plan_hits(p: Option<u64>) -> bool {
    p == Some(0u64)
}

/// Contents of a directory after writing `name`: an existing file of that
/// name is overwritten in place, a new one is appended.
pub open spec fn dir_upsert(d: DirV, name: Seq<char>, data: Seq<u8>) -> DirV
    decreases d.len(),
{
    if d.len() == 0 {
        seq![(name, data)]
    } else if d.first().0 == name {
        seq![(name, data)] + d.drop_first()
    } else {
        seq![d.first()] + dir_upsert(d.drop_first(), name, data)
    }
}

/// The data of the first file named `name` in `d`, if any.
pub open spec fn dir_lookup(d: DirV, name: Seq<char>) -> Option<Seq<u8>>
    decreases d.len(),
{
    if d.len() == 0 {
        None
    } else if d.first().0 == name {
        Some(d.first().1)
    } else {
        dir_lookup(d.drop_first(), name)
    }
}

/// The file names of `d`, in order.
pub open spec fn dir_names(d: DirV) -> Seq<Seq<char>> {
    d.map_values(|f: (Seq<char>, Seq<u8>)| f.0)
}

spec fn file_v(f: FileEntry) -> (Seq<char>, Seq<u8>) {
    (f.name@, f.data@)
}

spec fn files_view(files: Seq<FileEntry>) -> DirV {
    files.map_values(|f: FileEntry| file_v(f))
}

spec fn dir_wf(files: Seq<FileEntry>) -> bool {
    forall|i: int, j: int| 0 <= i < j < files.len() ==> files[i].name@ != files[j].name@
}

spec fn disk_map(dirs: Seq<DirEntry>) -> FsMap
    decreases dirs.len(),
{
    if dirs.len() == 0 {
        Map::empty()
    } else {
        disk_map(dirs.drop_last()).insert(dirs.last().path@, files_view(dirs.last().files@))
    }
}

spec fn paths_unique(dirs: Seq<DirEntry>) -> bool {
    forall|i: int, j: int| 0 <= i < j < dirs.len() ==> dirs[i].path@ != dirs[j].path@
}

/// The modelled directory tree, with its fault countdown.
pub struct Disk {
    dirs: Vec<DirEntry>,
    fail_at: Option<u64>,
}

/// Index of the first file named `name`, if any.
fn find_file(files: &Vec<FileEntry>, name: &String) -> (r: Option<usize>)
    ensures
        match r {
            Some(i) => {
                &&& i < files@.len()
                &&& files@[i as int].name@ == name@
                &&& forall|j: int| 0 <= j < i ==> (#[trigger] files@[j].name@) != name@
            },
            None => forall|j: int| 0 <= j < files@.len() ==> (#[trigger] files@[j].name@) != name@,
        },
{
    let n = files.len();
    let mut i: usize = 0;
    while i < n
        invariant
            i <= n,
            n == files@.len(),
            forall|j: int| 0 <= j < i ==> (#[trigger] files@[j].name@) != name@,
        decreases n - i,
    {
        if files[i].name == *name {
            return Some(i);
        }
        i = i + 1;
    }
    None
}

proof fn lemma_disk_map_contains(dirs: Seq<DirEntry>, p: Seq<char>)
    ensures
        disk_map(dirs).contains_key(p) <==> exists|i: int|
            0 <= i < dirs.len() && #[trigger] dirs[i].path@ == p,
    decreases dirs.len(),
{
    if dirs.len() > 0 {
        lemma_disk_map_contains(dirs.drop_last(), p);
        if dirs.last().path@ == p {
            assert(dirs[dirs.len() - 1].path@ == p);
        } else {
            if disk_map(dirs).contains_key(p) {
                let i = choose|i: int|
                    0 <= i < dirs.drop_last().len() && #[trigger] dirs.drop_last()[i].path@ == p;
                if disk_map(dirs.drop_last()).contains_key(p) {
                    assert(dirs[i].path@ == p);
                }
            }
            if exists|i: int| 0 <= i < dirs.len() && #[trigger] dirs[i].path@ == p {
                let i = choose|i: int| 0 <= i < dirs.len() && #[trigger] dirs[i].path@ == p;
                assert(i < dirs.len() - 1);
                assert(dirs.drop_last()[i].path@ == p);
            }
        }
    }
}

proof fn lemma_disk_map_at(dirs: Seq<DirEntry>, i: int)
    requires
        paths_unique(dirs),
        0 <= i < dirs.len(),
    ensures
        disk_map(dirs).contains_key(dirs[i].path@),
        disk_map(dirs)[dirs[i].path@] == files_view(dirs[i].files@),
    decreases dirs.len(),
{
    if i == dirs.len() - 1 {
    } else {
        assert(paths_unique(dirs.drop_last()));
        assert(dirs.drop_last()[i] == dirs[i]);
        lemma_disk_map_at(dirs.drop_last(), i);
        assert(dirs[i].path@ != dirs[dirs.len() - 1].path@);
    }
}

proof fn lemma_disk_map_update(dirs: Seq<DirEntry>, i: int, d: DirEntry)
    requires
        paths_unique(dirs),
        0 <= i < dirs.len(),
        d.path@ == dirs[i].path@,
    ensures
        paths_unique(dirs.update(i, d)),
        disk_map(dirs.update(i, d)) =~= disk_map(dirs).insert(d.path@, files_view(d.files@)),
    decreases dirs.len(),
{
    let upd = dirs.update(i, d);
    assert forall|x: int, y: int| 0 <= x < y < upd.len() implies upd[x].path@ != upd[y].path@ by {
        assert(dirs[x].path@ != dirs[y].path@);
    }
    if i == dirs.len() - 1 {
        assert(upd.drop_last() =~= dirs.drop_last());
        assert(upd.last() == d);
    } else {
        assert(paths_unique(dirs.drop_last()));
        assert(dirs.drop_last()[i] == dirs[i]);
        lemma_disk_map_update(dirs.drop_last(), i, d);
        assert(upd.drop_last() =~= dirs.drop_last().update(i, d));
        assert(upd.last() == dirs.last());
        assert(dirs[i].path@ != dirs[dirs.len() - 1].path@);
    }
}

proof fn lemma_disk_map_push(dirs: Seq<DirEntry>, d: DirEntry)
    requires
        paths_unique(dirs),
        forall|i: int| 0 <= i < dirs.len() ==> (#[trigger] dirs[i].path@) != d.path@,
    ensures
        paths_unique(dirs.push(d)),
        disk_map(dirs.push(d)) =~= disk_map(dirs).insert(d.path@, files_view(d.files@)),
{
    let p = dirs.push(d);
    assert forall|x: int, y: int| 0 <= x < y < p.len() implies p[x].path@ != p[y].path@ by {
        if y < dirs.len() {
            assert(dirs[x].path@ != dirs[y].path@);
        } else {
            assert(dirs[x].path@ != d.path@);
        }
    }
    assert(p.drop_last() =~= dirs);
    assert(p.last() == d);
}

proof fn lemma_disk_map_remove(dirs: Seq<DirEntry>, i: int)
    requires
        paths_unique(dirs),
        0 <= i < dirs.len(),
    ensures
        paths_unique(dirs.remove(i)),
        disk_map(dirs.remove(i)) =~= disk_map(dirs).remove(dirs[i].path@),
    decreases dirs.len(),
{
    let rem = dirs.remove(i);
    assert forall|x: int, y: int| 0 <= x < y < rem.len() implies rem[x].path@ != rem[y].path@ by {
        let xo = if x < i { x } else { x + 1 };
        let yo = if y < i { y } else { y + 1 };
        assert(rem[x] == dirs[xo]);
        assert(rem[y] == dirs[yo]);
        assert(dirs[xo].path@ != dirs[yo].path@);
    }
    if i == dirs.len() - 1 {
        assert(rem =~= dirs.drop_last());
        lemma_disk_map_contains(dirs.drop_last(), dirs[i].path@);
        assert forall|j: int| 0 <= j < dirs.drop_last().len() implies (#[trigger] dirs.drop_last()[j].path@)
            != dirs[i].path@ by {
            assert(dirs[j].path@ != dirs[i].path@);
        }
        assert(!disk_map(dirs.drop_last()).contains_key(dirs[i].path@));
        assert(disk_map(dirs).remove(dirs[i].path@) =~= disk_map(dirs.drop_last()));
    } else {
        assert(paths_unique(dirs.drop_last()));
        assert(dirs.drop_last()[i] == dirs[i]);
        lemma_disk_map_remove(dirs.drop_last(), i);
        assert(rem.drop_last() =~= dirs.drop_last().remove(i));
        assert(rem.last() == dirs.last());
        assert(dirs[i].path@ != dirs[dirs.len() - 1].path@);
    }
}

proof fn lemma_dir_upsert_hit(files: Seq<FileEntry>, i: int, f: FileEntry)
    requires
        dir_wf(files),
        0 <= i < files.len(),
        files[i].name@ == f.name@,
    ensures
        dir_wf(files.update(i, f)),
        dir_upsert(files_view(files), f.name@, f.data@) =~= files_view(files.update(i, f)),
    decreases files.len(),
{
    let upd = files.update(i, f);
    assert forall|x: int, y: int| 0 <= x < y < upd.len() implies upd[x].name@ != upd[y].name@ by {
        assert(files[x].name@ != files[y].name@);
    }
    assert(files_view(files).len() == files.len());
    if i == 0 {
        assert(files_view(files).first().0 == files[0].name@);
        assert(files_view(upd) =~= seq![(f.name@, f.data@)] + files_view(files).drop_first());
    } else {
        assert(files_view(files).first().0 == files[0].name@);
        assert(files[0].name@ != files[i].name@);
        assert(dir_wf(files.drop_first()));
        assert(files.drop_first()[i - 1] == files[i]);
        lemma_dir_upsert_hit(files.drop_first(), i - 1, f);
        assert(files_view(files).drop_first() =~= files_view(files.drop_first()));
        assert(upd.drop_first() =~= files.drop_first().update(i - 1, f));
        assert(files_view(upd) =~= seq![files_view(files).first()] + files_view(upd.drop_first()));
    }
}

proof fn lemma_dir_upsert_miss(files: Seq<FileEntry>, f: FileEntry)
    requires
        dir_wf(files),
        forall|i: int| 0 <= i < files.len() ==> (#[trigger] files[i].name@) != f.name@,
    ensures
        dir_wf(files.push(f)),
        dir_upsert(files_view(files), f.name@, f.data@) =~= files_view(files.push(f)),
    decreases files.len(),
{
    let p = files.push(f);
    assert forall|x: int, y: int| 0 <= x < y < p.len() implies p[x].name@ != p[y].name@ by {
        if y < files.len() {
            assert(files[x].name@ != files[y].name@);
        } else {
            assert(files[x].name@ != f.name@);
        }
    }
    assert(files_view(files).len() == files.len());
    if files.len() == 0 {
        assert(files_view(p) =~= seq![(f.name@, f.data@)]);
    } else {
        assert(files_view(files).first().0 == files[0].name@);
        assert(files[0].name@ != f.name@);
        assert(dir_wf(files.drop_first()));
        assert forall|i: int| 0 <= i < files.drop_first().len() implies (#[trigger] files.drop_first()[i].name@)
            != f.name@ by {
            assert(files[i + 1].name@ != f.name@);
        }
        lemma_dir_upsert_miss(files.drop_first(), f);
        assert(files_view(files).drop_first() =~= files_view(files.drop_first()));
        assert(p.drop_first() =~= files.drop_first().push(f));
        assert(files_view(p) =~= seq![files_view(files).first()] + files_view(p.drop_first()));
    }
}

impl View for Disk {
    type V = FsMap;

    closed spec fn view(&self) -> FsMap {
        disk_map(self.dirs@)
    }
}

impl Disk {
    /// Internal consistency: directory paths are unique, and file names are
    /// unique within each directory.
    pub closed spec fn wf(&self) -> bool {
        paths_unique(self.dirs@) && forall|i: int|
            0 <= i < self.dirs@.len() ==> dir_wf(#[trigger] self.dirs@[i].files@)
    }

    /// The remaining fault countdown.
    pub closed spec fn plan(&self) -> Option<u64> {
        self.fail_at
    }

    /// An empty tree with no faults scheduled.
    pub fn new() -> (d: Disk)
        ensures
            d.wf(),
            d@ =~= Map::<Seq<char>, DirV>::empty(),
            d.plan() is None,
    {
        Disk { dirs: Vec::new(), fail_at: None }
    }

    /// An empty tree whose `k`-th subsequent fallible operation will fail.
    pub fn new_with_fault_after(k: u64) -> (d: Disk)
        ensures
            d.wf(),
            d@ =~= Map::<Seq<char>, DirV>::empty(),
            d.plan() == Some(k),
    {
        Disk { dirs: Vec::new(), fail_at: Some(k) }
    }

    /// Schedule a fault on the `k`-th fallible operation from now.
    pub fn schedule_fault_after(&mut self, k: u64)
        ensures
            final(self).wf() == old(self).wf(),
            final(self)@ == old(self)@,
            final(self).plan() == Some(k),
    {
        self.fail_at = Some(k);
    }

    /// Advance the fault countdown for one attempted operation; reports
    /// whether that operation fails.
    fn tick(&mut self) -> (hit: bool)
        ensures
            final(self).wf() == old(self).wf(),
            final(self)@ == old(self)@,
            hit == plan_hits(old(self).plan()),
            final(self).plan() == plan_ticks(old(self).plan()),
    {
        match self.fail_at {
            Some(k) => {
                if k == 0 {
                    self.fail_at = None;
                    true
                } else {
                    self.fail_at = Some(k - 1);
                    false
                }
            },
            None => false,
        }
    }

    /// Index of the directory at `path`, if present.
    fn find_dir(&self, path: &String) -> (r: Option<usize>)
        requires
            self.wf(),
        ensures
            match r {
                Some(i) => {
                    &&& i < self.dirs@.len()
                    &&& self.dirs@[i as int].path@ == path@
                    &&& self@.contains_key(path@)
                    &&& self@[path@] == files_view(self.dirs@[i as int].files@)
                },
                None => !self@.contains_key(path@),
            },
    {
        let n = self.dirs.len();
        let mut i: usize = 0;
        while i < n
            invariant
                i <= n,
                n == self.dirs@.len(),
                self.wf(),
                forall|j: int| 0 <= j < i ==> (#[trigger] self.dirs@[j].path@) != path@,
            decreases n - i,
        {
            if self.dirs[i].path == *path {
                proof {
                    lemma_disk_map_at(self.dirs@, i as int);
                }
                return Some(i);
            }
            i = i + 1;
        }
        proof {
            lemma_disk_map_contains(self.dirs@, path@);
        }
        None
    }

    /// Whether a directory exists at `path`.  A plain inspection: consumes
    /// no fault.
    pub fn dir_exists(&self, path: &String) -> (r: bool)
        requires
            self.wf(),
        ensures
            r == self@.contains_key(path@),
    {
        self.find_dir(path).is_some()
    }

    /// Create the directory at `path`.  Creating an existing directory is a
    /// no-op that touches no filesystem state and consumes no fault.
    pub fn create_dir(&mut self, path: &String) -> (r: Result<(), StorageError>)
        requires
            old(self).wf(),
        ensures
            final(self).wf(),
            old(self)@.contains_key(path@) ==> {
                &&& r is Ok
                &&& final(self)@ == old(self)@
                &&& final(self).plan() == old(self).plan()
            },
            !old(self)@.contains_key(path@) ==> {
                &&& final(self).plan() == plan_ticks(old(self).plan())
                &&& if plan_hits(old(self).plan()) {
                    r is Err && final(self)@ == old(self)@
                } else {
                    r is Ok && final(self)@ == old(self)@.insert(path@, Seq::empty())
                }
            },
    {
        if self.find_dir(path).is_some() {
            return Ok(());
        }
        if self.tick() {
            return Err(StorageError::Fault);
        }
        let ghost dirs0 = self.dirs@;
        let d = DirEntry { path: path.clone(), files: Vec::new() };
        proof {
            lemma_disk_map_contains(dirs0, path@);
            assert forall|i: int| 0 <= i < dirs0.len() implies (#[trigger] dirs0[i].path@)
                != path@ by {}
            lemma_disk_map_push(dirs0, d);
            assert(files_view(d.files@) =~= Seq::<(Seq<char>, Seq<u8>)>::empty());
        }
        self.dirs.push(d);
        Ok(())
    }

    /// Write `data` under `name` into the directory at `path`, overwriting
    /// any file of that name.
    pub fn write_file(&mut self, path: &String, name: &String, data: Vec<u8>) -> (r: Result<
        (),
        StorageError,
    >)
        requires
            old(self).wf(),
        ensures
            final(self).wf(),
            final(self).plan() == plan_ticks(old(self).plan()),
            plan_hits(old(self).plan()) ==> r == Err::<(), StorageError>(StorageError::Fault)
                && final(self)@ == old(self)@,
            !plan_hits(old(self).plan()) && !old(self)@.contains_key(path@) ==> r == Err::<
                (),
                StorageError,
            >(StorageError::Missing) && final(self)@ == old(self)@,
            !plan_hits(old(self).plan()) && old(self)@.contains_key(path@) ==> r is Ok
                && final(self)@ == old(self)@.insert(
                path@,
                dir_upsert(old(self)@[path@], name@, data@),
            ),
    {
        if self.tick() {
            return Err(StorageError::Fault);
        }
        let at = match self.find_dir(path) {
            Some(i) => i,
            None => {
                return Err(StorageError::Missing);
            },
        };
        let ghost dirs0 = self.dirs@;
        let mut d = self.dirs.remove(at);
        let ghost files0 = d.files@;
        let found = find_file(&d.files, name);
        match found {
            Some(k) => {
                let entry = FileEntry { name: name.clone(), data };
                d.files.remove(k);
                d.files.insert(k, entry);
                proof {
                    assert(d.files@ =~= files0.update(k as int, d.files@[k as int]));
                    lemma_dir_upsert_hit(files0, k as int, d.files@[k as int]);
                }
            },
            None => {
                proof {
                    assert(forall|j: int|
                        0 <= j < files0.len() ==> (#[trigger] files0[j].name@) != name@);
                }
                let entry = FileEntry { name: name.clone(), data };
                d.files.push(entry);
                proof {
                    assert(d.files@ =~= files0.push(d.files@[files0.len() as int]));
                    assert(d.files@[files0.len() as int].name@ == name@);
                    lemma_dir_upsert_miss(files0, d.files@[files0.len() as int]);
                }
            },
        }
        let ghost dnew = d;
        proof {
            assert(dirs0[at as int].path@ == path@);
            assert(dir_wf(dnew.files@));
        }
        self.dirs.insert(at, d);
        proof {
            assert(self.dirs@ =~= dirs0.update(at as int, dnew));
            lemma_disk_map_update(dirs0, at as int, dnew);
            assert forall|i: int| 0 <= i < self.dirs@.len() implies dir_wf(
                #[trigger] self.dirs@[i].files@,
            ) by {
                if i != at {
                    assert(self.dirs@[i] == dirs0[i]);
                }
            }
        }
        Ok(())
    }

    /// Remove the directory at `path` and everything in it.  Removing a
    /// missing directory is an error, as recursive removal is on a real
    /// filesystem.
    pub fn remove_dir(&mut self, path: &String) -> (r: Result<(), StorageError>)
        requires
            old(self).wf(),
        ensures
            final(self).wf(),
            final(self).plan() == plan_ticks(old(self).plan()),
            plan_hits(old(self).plan()) ==> r == Err::<(), StorageError>(StorageError::Fault)
                && final(self)@ == old(self)@,
            !plan_hits(old(self).plan()) && !old(self)@.contains_key(path@) ==> r == Err::<
                (),
                StorageError,
            >(StorageError::Missing) && final(self)@ == old(self)@,
            !plan_hits(old(self).plan()) && old(self)@.contains_key(path@) ==> r is Ok
                && final(self)@ == old(self)@.remove(path@),
    {
        if self.tick() {
            return Err(StorageError::Fault);
        }
        let at = match self.find_dir(path) {
            Some(i) => i,
            None => {
                return Err(StorageError::Missing);
            },
        };
        let ghost dirs0 = self.dirs@;
        self.dirs.remove(at);
        proof {
            lemma_disk_map_remove(dirs0, at as int);
            assert forall|i: int| 0 <= i < self.dirs@.len() implies dir_wf(
                #[trigger] self.dirs@[i].files@,
            ) by {
                if i < at {
                    assert(self.dirs@[i] == dirs0[i]);
                } else {
                    assert(self.dirs@[i] == dirs0[i + 1]);
                }
            }
        }
        Ok(())
    }

    /// The data of the file `name` in the directory at `path`, if both
    /// exist.  A plain inspection: consumes no fault.
    pub fn read_file(&self, path: &String, name: &String) -> (r: Option<&Vec<u8>>)
        requires
            self.wf(),
        ensures
            match r {
                Some(v) => self@.contains_key(path@) && dir_lookup(self@[path@], name@) == Some(
                    v@,
                ),
                None => !self@.contains_key(path@) || dir_lookup(self@[path@], name@) is None,
            },
    {
        let at = match self.find_dir(path) {
            Some(i) => i,
            None => {
                return None;
            },
        };
        let files = &self.dirs[at].files;
        if let Some(i) = find_file(files, name) {
            proof {
                lemma_dir_lookup_first(files@, i as int, name@);
                assert(dir_lookup(self@[path@], name@) == Some(files@[i as int].data@));
            }
            return Some(&files[i].data);
        }
        proof {
            lemma_dir_lookup_none(files@, name@);
        }
        None
    }

    /// The file names of the directory at `path`, in order, if it exists.
    /// A plain inspection: consumes no fault.
    pub fn dir_file_names(&self, path: &String) -> (r: Option<Vec<String>>)
        requires
            self.wf(),
        ensures
            match r {
                Some(v) => self@.contains_key(path@) && v.deep_view() =~= dir_names(self@[path@]),
                None => !self@.contains_key(path@),
            },
    {
        let at = match self.find_dir(path) {
            Some(i) => i,
            None => {
                return None;
            },
        };
        let files = &self.dirs[at].files;
        let n = files.len();
        let mut out: Vec<String> = Vec::new();
        let mut i: usize = 0;
        while i < n
            invariant
                i <= n,
                n == files@.len(),
                out@.len() == i,
                forall|j: int| 0 <= j < i ==> (#[trigger] out@[j])@ == files@[j].name@,
            decreases n - i,
        {
            out.push(files[i].name.clone());
            i = i + 1;
        }
        proof {
            assert(out.deep_view() =~= dir_names(files_view(files@)));
        }
        Some(out)
    }
}

/// Writing then reading: a written file reads back its own data.
pub proof fn lemma_dir_upsert_read_back(d: DirV, name: Seq<char>, data: Seq<u8>)
    ensures
        dir_lookup(dir_upsert(d, name, data), name) == Some(data),
    decreases d.len(),
{
    if d.len() > 0 && d.first().0 != name {
        lemma_dir_upsert_read_back(d.drop_first(), name, data);
        let u = dir_upsert(d, name, data);
        assert(u == seq![d.first()] + dir_upsert(d.drop_first(), name, data));
        assert(u.first() == d.first());
        assert(u.drop_first() =~= dir_upsert(d.drop_first(), name, data));
    }
}

/// Writing one file leaves every other file's data unchanged.
pub proof fn lemma_dir_upsert_preserves(d: DirV, name: Seq<char>, data: Seq<u8>, other: Seq<char>)
    requires
        other != name,
    ensures
        dir_lookup(dir_upsert(d, name, data), other) == dir_lookup(d, other),
    decreases d.len(),
{
    if d.len() == 0 {
        let u = dir_upsert(d, name, data);
        assert(u =~= seq![(name, data)]);
        assert(u.first().0 == name);
        assert(u.drop_first() =~= Seq::<(Seq<char>, Seq<u8>)>::empty());
        assert(dir_lookup(u, other) == dir_lookup(u.drop_first(), other));
        assert(dir_lookup(u.drop_first(), other) is None);
    } else if d.first().0 == name {
        let u = dir_upsert(d, name, data);
        assert(u == seq![(name, data)] + d.drop_first());
        assert(u.first() == (name, data));
        assert(u.drop_first() =~= d.drop_first());
        assert(dir_lookup(u, other) == dir_lookup(d.drop_first(), other));
        assert(dir_lookup(d, other) == dir_lookup(d.drop_first(), other));
    } else {
        lemma_dir_upsert_preserves(d.drop_first(), name, data, other);
        let u = dir_upsert(d, name, data);
        assert(u == seq![d.first()] + dir_upsert(d.drop_first(), name, data));
        assert(u.first() == d.first());
        assert(u.drop_first() =~= dir_upsert(d.drop_first(), name, data));
        if d.first().0 == other {
            assert(dir_lookup(u, other) == Some(d.first().1));
            assert(dir_lookup(d, other) == Some(d.first().1));
        } else {
            assert(dir_lookup(u, other) == dir_lookup(u.drop_first(), other));
            assert(dir_lookup(d, other) == dir_lookup(d.drop_first(), other));
        }
    }
}

/// Every listed file name can be read back: looking up the `k`-th name of
/// a directory finds a file.
pub proof fn lemma_dir_names_lookup(d: DirV, k: int)
    requires
        0 <= k < d.len(),
    ensures
        dir_names(d).len() == d.len(),
        dir_lookup(d, dir_names(d)[k]) is Some,
    decreases d.len(),
{
    if d.first().0 == dir_names(d)[k] {
    } else {
        assert(dir_names(d)[0] == d.first().0);
        assert(k > 0);
        lemma_dir_names_lookup(d.drop_first(), k - 1);
        assert(dir_names(d.drop_first()) =~= dir_names(d).drop_first());
        assert(dir_names(d.drop_first())[k - 1] == dir_names(d)[k]);
    }
}

proof fn lemma_dir_lookup_first(files: Seq<FileEntry>, i: int, name: Seq<char>)
    requires
        0 <= i < files.len(),
        files[i].name@ == name,
        forall|j: int| 0 <= j < i ==> (#[trigger] files[j].name@) != name,
    ensures
        dir_lookup(files_view(files), name) == Some(files[i].data@),
    decreases i,
{
    assert(files_view(files).len() == files.len());
    assert(files_view(files).first().0 == files[0].name@);
    if i == 0 {
    } else {
        assert(files[0].name@ != name);
        assert forall|j: int| 0 <= j < i - 1 implies (#[trigger] files.drop_first()[j].name@)
            != name by {
            assert(files[j + 1].name@ != name);
        }
        assert(files.drop_first()[i - 1] == files[i]);
        lemma_dir_lookup_first(files.drop_first(), i - 1, name);
        assert(files_view(files).drop_first() =~= files_view(files.drop_first()));
    }
}

proof fn lemma_dir_lookup_none(files: Seq<FileEntry>, name: Seq<char>)
    requires
        forall|j: int| 0 <= j < files.len() ==> (#[trigger] files[j].name@) != name,
    ensures
        dir_lookup(files_view(files), name) is None,
    decreases files.len(),
{
    if files.len() > 0 {
        assert(files_view(files).first().0 == files[0].name@);
        assert(files[0].name@ != name);
        assert forall|j: int| 0 <= j < files.drop_first().len() implies (#[trigger] files.drop_first()[j].name@)
            != name by {
            assert(files[j + 1].name@ != name);
        }
        lemma_dir_lookup_none(files.drop_first(), name);
        assert(files_view(files).drop_first() =~= files_view(files.drop_first()));
    }
}

} // verus!
