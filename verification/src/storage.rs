//! Blob storage: the directory layout and the staging session.
//!
//! `BlobStorage` owns the base directory with its `posts` and `comments`
//! subdirectories and hands out per-post staging sessions.  A session
//! (`LocalStorageDriver`) is bound to one blob directory and follows a
//! confirm-or-purge discipline: once any write has been attempted, the
//! session must either be confirmed or, on `finish`, the whole directory is
//! deleted again, so no partially written blob directory survives.

use vstd::prelude::*;
use vstd::string::StrSliceExecFns;
use vstd::string::StringExecFns;

use crate::disk::dir_upsert;
use crate::disk::plan_hits;
use crate::disk::plan_ticks;
use crate::disk::Disk;
use crate::disk::FsMap;
use crate::disk::StorageError;

verus! {

/// Path of `name` inside the directory `base`.
pub open spec fn joined(base: Seq<char>, name: Seq<char>) -> Seq<char> {
    base + seq!['/'] + name
}

/// Append `/name` to `base`.
pub fn join_path(base: &str, name: &str) -> (r: String)
    ensures
        r@ == joined(base@, name@),
{
    proof {
        reveal_strlit("/");
    }
    let mut s = base.to_owned();
    s.append("/");
    s.append(name);
    proof {
        assert(("/")@ =~= seq!['/']);
        assert(s@ =~= joined(base@, name@));
    }
    s
}

/// Two joins under the same base with different names give different paths.
pub proof fn lemma_joined_injective(base: Seq<char>, a: Seq<char>, b: Seq<char>)
    requires
        a != b,
    ensures
        joined(base, a) != joined(base, b),
{
    if joined(base, a) == joined(base, b) {
        assert(joined(base, a).skip((base.len() + 1) as int) =~= a);
        assert(joined(base, b).skip((base.len() + 1) as int) =~= b);
    }
}

/// `m` with the directory `p` guaranteed present (created empty if absent).
pub open spec fn ensure_dir(m: FsMap, p: Seq<char>) -> FsMap {
    if m.contains_key(p) {
        m
    } else {
        m.insert(p, Seq::empty())
    }
}

/// A staging session bound to one blob directory.
///
/// `try_saving` records that at least one write was attempted; `confirm`
/// records an explicit `confirm_saved`.  On `finish`, a session that wrote
/// but was never confirmed purges its directory.
pub struct LocalStorageDriver {
    blob_path: String,
    try_saving: bool,
    confirm: bool,
}

/// What `finish` leaves behind when its cleanup I/O succeeds: the directory
/// is purged exactly when the session wrote without being confirmed.
pub open spec fn finish_effect(writing: bool, confirmed: bool, path: Seq<char>, m: FsMap) -> FsMap {
    if writing && !confirmed {
        m.remove(path)
    } else {
        m
    }
}

impl LocalStorageDriver {
    /// The directory this session writes to.
    pub closed spec fn path(&self) -> Seq<char> {
        self.blob_path@
    }

    /// At least one write has been attempted.
    pub closed spec fn writing(&self) -> bool {
        self.try_saving
    }

    /// The session was explicitly confirmed.
    pub closed spec fn confirmed(&self) -> bool {
        self.confirm
    }

    /// A fresh session for the directory at `blob_path`: nothing written,
    /// nothing confirmed.
    pub fn new(blob_path: String) -> (d: Self)
        ensures
            d.path() == blob_path@,
            !d.writing(),
            !d.confirmed(),
    {
        LocalStorageDriver { blob_path, try_saving: false, confirm: false }
    }

    /// Ensure the blob directory exists; creating an existing directory is
    /// a no-op.
    pub fn try_init(&self, fs: &mut Disk) -> (r: Result<(), StorageError>)
        requires
            old(fs).wf(),
        ensures
            final(fs).wf(),
            old(fs)@.contains_key(self.path()) ==> r is Ok && final(fs)@ == old(fs)@ && final(fs).plan() == old(fs).plan(),
            !old(fs)@.contains_key(self.path()) ==> {
                &&& final(fs).plan() == plan_ticks(old(fs).plan())
                &&& if plan_hits(old(fs).plan()) {
                    r is Err && final(fs)@ == old(fs)@
                } else {
                    r is Ok && final(fs)@ == ensure_dir(old(fs)@, self.path())
                }
            },
    {
        fs.create_dir(&self.blob_path)
    }

    /// Mark the session as confirmed; `finish` will then leave the
    /// directory alone.
    pub fn confirm_saved(&mut self)
        ensures
            final(self).path() == old(self).path(),
            final(self).writing() == old(self).writing(),
            final(self).confirmed(),
    {
        self.confirm = true;
    }

    /// Write the post content file `file_name` with the UTF-8 bytes of
    /// `content`; the session transitions to writing.
    pub fn post_save_content(&mut self, fs: &mut Disk, file_name: &String, content: &str) -> (r:
        Result<(), StorageError>)
        requires
            old(fs).wf(),
        ensures
            final(fs).wf(),
            final(self).path() == old(self).path(),
            final(self).writing(),
            final(self).confirmed() == old(self).confirmed(),
            final(fs).plan() == plan_ticks(old(fs).plan()),
            plan_hits(old(fs).plan()) ==> r is Err && final(fs)@ == old(fs)@,
            !plan_hits(old(fs).plan()) && !old(fs)@.contains_key(old(self).path()) ==> r is Err
                && final(fs)@ == old(fs)@,
            !plan_hits(old(fs).plan()) && old(fs)@.contains_key(old(self).path()) ==> r is Ok
                && final(fs)@ == old(fs)@.insert(
                old(self).path(),
                dir_upsert(old(fs)@[old(self).path()], file_name@, vstd::utf8::encode_utf8(content@)),
            ),
    {
        self.try_saving = true;
        let data = content.as_bytes_vec();
        fs.write_file(&self.blob_path, file_name, data)
    }

    /// Write the attachment `file_name` with the given bytes; the session
    /// transitions to writing.
    pub fn post_save_attachment(&mut self, fs: &mut Disk, file_name: &String, data: Vec<u8>) -> (r:
        Result<(), StorageError>)
        requires
            old(fs).wf(),
        ensures
            final(fs).wf(),
            final(self).path() == old(self).path(),
            final(self).writing(),
            final(self).confirmed() == old(self).confirmed(),
            final(fs).plan() == plan_ticks(old(fs).plan()),
            plan_hits(old(fs).plan()) ==> r is Err && final(fs)@ == old(fs)@,
            !plan_hits(old(fs).plan()) && !old(fs)@.contains_key(old(self).path()) ==> r is Err
                && final(fs)@ == old(fs)@,
            !plan_hits(old(fs).plan()) && old(fs)@.contains_key(old(self).path()) ==> r is Ok
                && final(fs)@ == old(fs)@.insert(
                old(self).path(),
                dir_upsert(old(fs)@[old(self).path()], file_name@, data@),
            ),
    {
        self.try_saving = true;
        fs.write_file(&self.blob_path, file_name, data)
    }

    /// Delete the whole blob directory.
    pub fn post_clear_all(&self, fs: &mut Disk) -> (r: Result<(), StorageError>)
        requires
            old(fs).wf(),
        ensures
            final(fs).wf(),
            final(fs).plan() == plan_ticks(old(fs).plan()),
            plan_hits(old(fs).plan()) ==> r is Err && final(fs)@ == old(fs)@,
            !plan_hits(old(fs).plan()) && !old(fs)@.contains_key(self.path()) ==> r is Err && final(fs)@ == old(fs)@,
            !plan_hits(old(fs).plan()) && old(fs)@.contains_key(self.path()) ==> r is Ok && final(fs)@ == old(fs)@.remove(self.path()),
    {
        fs.remove_dir(&self.blob_path)
    }

    /// End the session: the guaranteed scope-exit cleanup.
    ///
    /// A session that wrote and was confirmed, or that never wrote, leaves
    /// the filesystem untouched.  A session that wrote without being
    /// confirmed purges its directory; a failure of that deletion is
    /// swallowed, never escalated.
    pub fn finish(self, fs: &mut Disk)
        requires
            old(fs).wf(),
        ensures
            final(fs).wf(),
            !(self.writing() && !self.confirmed()) ==> final(fs)@ == old(fs)@ && final(fs).plan()
                == old(fs).plan(),
            self.writing() && !self.confirmed() ==> {
                &&& final(fs).plan() == plan_ticks(old(fs).plan())
                &&& if plan_hits(old(fs).plan()) {
                    final(fs)@ == old(fs)@
                } else {
                    final(fs)@ == finish_effect(self.writing(), self.confirmed(), self.path(), old(fs)@)
                }
            },
    {
        if self.try_saving && !self.confirm {
            let r = fs.remove_dir(&self.blob_path);
            proof {
                if !plan_hits(old(fs).plan()) && !old(fs)@.contains_key(self.path()) {
                    assert(old(fs)@.remove(self.path()) =~= old(fs)@);
                }
            }
            // A deletion failure is only logged by the surrounding binary.
            let _failed = r.is_err();
        }
    }
}

/// Rollback invariant: a session that reached writing and was never
/// confirmed leaves no directory behind once its cleanup ran.
pub proof fn lemma_rollback_invariant(writing: bool, confirmed: bool, path: Seq<char>, m: FsMap)
    requires
        writing,
        !confirmed,
    ensures
        !finish_effect(writing, confirmed, path, m).contains_key(path),
{
}

/// Confirm invariant: a confirmed session's cleanup touches nothing, so the
/// directory and every file written into it survive.
pub proof fn lemma_confirm_invariant(writing: bool, confirmed: bool, path: Seq<char>, m: FsMap)
    requires
        confirmed,
    ensures
        finish_effect(writing, confirmed, path, m) == m,
{
}

/// Confirm invariant, end to end: after a session in a present directory
/// writes a file and is confirmed, its cleanup leaves the directory and the
/// written file intact.
pub proof fn lemma_confirmed_writes_survive(
    m: FsMap,
    path: Seq<char>,
    name: Seq<char>,
    data: Seq<u8>,
)
    requires
        m.contains_key(path),
    ensures
        ({
            let staged = m.insert(path, dir_upsert(m[path], name, data));
            let after = finish_effect(true, true, path, staged);
            after.contains_key(path) && crate::disk::dir_lookup(after[path], name) == Some(data)
        }),
{
    crate::disk::lemma_dir_upsert_read_back(m[path], name, data);
}

/// The storage root: a base directory holding the `posts` and `comments`
/// areas, and one directory per blob under `posts`.
pub struct BlobStorage {
    base_dir: String,
}

/// The filesystem after the root made sure its three directories exist.
pub open spec fn init_effect(m: FsMap, base: Seq<char>) -> FsMap {
    ensure_dir(
        ensure_dir(ensure_dir(m, base), joined(base, "posts"@)),
        joined(base, "comments"@),
    )
}

/// How many directories an initialization starting from `m` actually
/// creates (its number of fallible filesystem operations).
pub open spec fn init_ops(m: FsMap, base: Seq<char>) -> nat {
    let m1 = ensure_dir(m, base);
    let m2 = ensure_dir(m1, joined(base, "posts"@));
    (if m.contains_key(base) {
        0nat
    } else {
        1nat
    }) + (if m1.contains_key(joined(base, "posts"@)) {
        0nat
    } else {
        1nat
    }) + (if m2.contains_key(joined(base, "comments"@)) {
        0nat
    } else {
        1nat
    })
}

/// The countdown fires within the next `ops` fallible operations.
pub open spec fn plan_fires(p: Option<u64>, ops: nat) -> bool {
    p matches Some(k) && (k as nat) < ops
}

/// The countdown after `ops` fallible operations that all succeeded.
pub open spec fn plan_after(p: Option<u64>, ops: nat) -> Option<u64> {
    match p {
        Some(k) => if (k as nat) < ops {
            None
        } else {
            Some((k - ops) as u64)
        },
        None => None,
    }
}

impl BlobStorage {
    /// The base directory path.
    pub closed spec fn base(&self) -> Seq<char> {
        self.base_dir@
    }

    /// The path of the `posts` area.
    pub open spec fn posts_dir_spec(&self) -> Seq<char> {
        joined(self.base(), "posts"@)
    }

    /// The path of the blob directory named `blob`.
    pub open spec fn blob_dir_spec(&self, blob: Seq<char>) -> Seq<char> {
        joined(self.posts_dir_spec(), blob)
    }

    /// A root over the given base directory.
    pub fn new(base_dir: String) -> (s: Self)
        ensures
            s.base() == base_dir@,
    {
        BlobStorage { base_dir }
    }

    /// Create the base directory and its `posts` and `comments` areas,
    /// skipping any that already exist.  Initializing an already
    /// initialized root performs no filesystem work and cannot fail.
    pub fn try_init_blob_storage(&self, fs: &mut Disk) -> (r: Result<(), StorageError>)
        requires
            old(fs).wf(),
        ensures
            final(fs).wf(),
            r is Ok <==> !plan_fires(old(fs).plan(), init_ops(old(fs)@, self.base())),
            r is Ok ==> final(fs)@ == init_effect(old(fs)@, self.base()) && final(fs).plan()
                == plan_after(old(fs).plan(), init_ops(old(fs)@, self.base())),
            r is Err ==> final(fs).plan() is None && (final(fs)@ == old(fs)@ || final(fs)@
                == ensure_dir(old(fs)@, self.base()) || final(fs)@ == ensure_dir(
                ensure_dir(old(fs)@, self.base()),
                joined(self.base(), "posts"@),
            )),
            init_ops(old(fs)@, self.base()) == 0 ==> r is Ok && final(fs)@ == old(fs)@ && final(fs).plan() == old(fs).plan(),
    {
        let base = &self.base_dir;
        if let Err(e) = fs.create_dir(base) {
            return Err(e);
        }
        let posts_dir = join_path(base.as_str(), "posts");
        if let Err(e) = fs.create_dir(&posts_dir) {
            return Err(e);
        }
        let comments_dir = join_path(base.as_str(), "comments");
        if let Err(e) = fs.create_dir(&comments_dir) {
            return Err(e);
        }
        Ok(())
    }

    /// The path of the blob directory named `blob`.
    pub fn single_post_dir(&self, blob: &str) -> (r: String)
        ensures
            r@ == self.blob_dir_spec(blob@),
    {
        let posts_dir = self.posts_dir();
        join_path(posts_dir.as_str(), blob)
    }

    /// A staging session bound to the blob directory named `blob`.
    pub fn post_storage_driver(&self, blob: &str) -> (d: LocalStorageDriver)
        ensures
            d.path() == self.blob_dir_spec(blob@),
            !d.writing(),
            !d.confirmed(),
    {
        LocalStorageDriver::new(self.single_post_dir(blob))
    }

    /// The path of the `posts` area.
    fn posts_dir(&self) -> (r: String)
        ensures
            r@ == self.posts_dir_spec(),
    {
        join_path(self.base_dir.as_str(), "posts")
    }
}

/// Initializing the storage root is idempotent: a second initialization
/// changes nothing and performs no filesystem work.
pub proof fn lemma_init_idempotent(m: FsMap, base: Seq<char>)
    ensures
        init_effect(init_effect(m, base), base) == init_effect(m, base),
        init_ops(init_effect(m, base), base) == 0,
{
    let m1 = init_effect(m, base);
    assert(m1.contains_key(base));
    assert(m1.contains_key(joined(base, "posts"@)));
    assert(m1.contains_key(joined(base, "comments"@)));
}

} // verus!
