//! The repository operations: the create / update / delete / read flows
//! that keep the posts table and the blob directories consistent.
//!
//! Each flow works on the in-memory models — the posts table and the
//! directory tree — and states exactly what it changes, for every outcome
//! of the fallible filesystem, so that the two-phase blob swap and the
//! confirm-or-purge staging discipline are proved rather than hoped for.

use vstd::prelude::*;
use vstd::string::StrSliceExecFns;
use vstd::string::StringExecFns;

use crate::disk::dir_lookup;
use crate::disk::dir_names;
use crate::disk::dir_upsert;
use crate::disk::plan_hits;
use crate::disk::plan_ticks;
use crate::disk::DirV;
use crate::disk::Disk;
use crate::disk::FsMap;
use crate::errors::PostsError;
use crate::posts::assembled_post;
use crate::posts::Post;
use crate::posts::PostV;
use crate::sluggen::next_slug_spec;
use crate::store::id_index;
use crate::store::insert_pos;
use crate::store::matching_slugs;
use crate::store::slug_index;
use crate::store::PostStore;
use crate::store::RowV;
use crate::storage::plan_after;
use crate::storage::plan_fires;
use crate::storage::BlobStorage;
use crate::textutil::chars_end_with;
use crate::textutil::copy_bytes;
use crate::textutil::ends_with_spec;
use crate::textutil::str_chars;
use vstd::utf8::decode_utf8;
use vstd::utf8::encode_utf8;
use vstd::utf8::valid_utf8;

verus! {

/// One uploaded file: the name the client sent, if any, and its bytes.
pub struct UploadFile {
    pub name: Option<String>,
    pub data: Vec<u8>,
}

/// The file carries the post content: its name ends in `.md`.
pub open spec fn is_content_file(f: UploadFile) -> bool {
    f.name matches Some(n) && ends_with_spec(n@, ".md"@)
}

/// Index of the first content file among the uploads.
pub open spec fn content_file_index(files: Seq<UploadFile>) -> Option<int>
    decreases files.len(),
{
    if files.len() == 0 {
        None
    } else if is_content_file(files.first()) {
        Some(0)
    } else {
        match content_file_index(files.drop_first()) {
            Some(i) => Some(i + 1),
            None => None,
        }
    }
}

proof fn lemma_content_index_found(files: Seq<UploadFile>, p: int)
    requires
        0 <= p < files.len(),
        is_content_file(files[p]),
        forall|j: int| 0 <= j < p ==> !is_content_file(files[j]),
    ensures
        content_file_index(files) == Some(p),
    decreases p,
{
    if p > 0 {
        assert forall|j: int| 0 <= j < p - 1 implies !is_content_file(files.drop_first()[j]) by {
            assert(files.drop_first()[j] == files[j + 1]);
        }
        assert(files.drop_first()[p - 1] == files[p]);
        lemma_content_index_found(files.drop_first(), p - 1);
    }
}

proof fn lemma_content_index_none(files: Seq<UploadFile>)
    requires
        forall|j: int| 0 <= j < files.len() ==> !is_content_file(files[j]),
    ensures
        content_file_index(files) is None,
    decreases files.len(),
{
    if files.len() > 0 {
        assert forall|j: int|
            0 <= j < files.drop_first().len() implies !is_content_file(files.drop_first()[j]) by {
            assert(files.drop_first()[j] == files[j + 1]);
        }
        lemma_content_index_none(files.drop_first());
    }
}

/// Relies on `String::from_utf8`: succeeds exactly on valid UTF-8 and
/// decodes those bytes, as `vstd`'s UTF-8 model states it.
#[verifier::external_body]
fn bytes_to_string(v: &Vec<u8>) -> (r: Option<String>)
    ensures
        r matches Some(s) ==> valid_utf8(v@) && s@ == decode_utf8(v@),
        r is None ==> !valid_utf8(v@),
{
    String::from_utf8(v.clone()).ok()
}

/// What `uuid::Uuid::new_v4` renders to: a fresh random identifier in the
/// 36-character hyphenated form.  Nothing more can be promised of a random
/// value.
#[verifier::external_body]
pub fn fresh_uuid() -> (r: String)
    ensures
        r@.len() == 36,
{
    uuid::Uuid::new_v4().to_string()
}

/// Index of the first content file, walking the uploads in order.
fn find_content_file(files: &Vec<UploadFile>) -> (r: Option<usize>)
    ensures
        match r {
            Some(i) => content_file_index(files@) == Some(i as int) && i < files@.len()
                && is_content_file(files@[i as int]),
            None => content_file_index(files@) is None,
        },
{
    let n = files.len();
    let mut i: usize = 0;
    while i < n
        invariant
            i <= n,
            n == files@.len(),
            forall|j: int| 0 <= j < i ==> !is_content_file(files@[j]),
        decreases n - i,
    {
        let hit = match &files[i].name {
            Some(name) => {
                let nc = str_chars(name.as_str());
                chars_end_with(&nc, ".md")
            },
            None => false,
        };
        if hit {
            proof {
                lemma_content_index_found(files@, i as int);
            }
            return Some(i);
        }
        proof {
            assert(!is_content_file(files@[i as int]));
        }
        i = i + 1;
    }
    proof {
        lemma_content_index_none(files@);
    }
    None
}

/// Locate the content file of an upload, read it as UTF-8 text, and
/// assemble the post from it, with `default_id` naming the placeholder
/// title and `now` the default date.  Fails when no upload is a content
/// file, or its bytes are not UTF-8.
pub fn split_post_content_from_files(files: &Vec<UploadFile>, default_id: &String, now: i64) -> (r:
    Result<Post, PostsError>)
    ensures
        match r {
            Ok(p) => {
                &&& content_file_index(files@) matches Some(i)
                &&& valid_utf8(files@[content_file_index(files@)->0].data@)
                &&& p@ == assembled_post(
                    decode_utf8(files@[content_file_index(files@)->0].data@),
                    default_id@,
                    now,
                )
            },
            Err(e) => {
                &&& e is UnexpectedError
                &&& (content_file_index(files@) is None || !valid_utf8(
                    files@[content_file_index(files@)->0].data@,
                ))
            },
        },
{
    let i = match find_content_file(files) {
        Some(i) => i,
        None => {
            return Err(
                PostsError::UnexpectedError(
                    "Failed to handle posts because the post content is missing".to_owned(),
                ),
            );
        },
    };
    let raw = match bytes_to_string(&files[i].data) {
        Some(s) => s,
        None => {
            return Err(PostsError::UnexpectedError("Failed to read post content".to_owned()));
        },
    };
    let builder = crate::posts::PostBuilder::from_raw_post(raw.as_str());
    let post = builder.build(default_id.as_str(), now);
    Ok(post)
}

/// How many uploads carry a name (each one costs a write).
pub open spec fn named_count(files: Seq<UploadFile>) -> nat
    decreases files.len(),
{
    if files.len() == 0 {
        0
    } else {
        named_count(files.drop_last()) + (if files.last().name is Some {
            1nat
        } else {
            0nat
        })
    }
}

/// How many fallible filesystem operations staging performs from `m`: one
/// directory creation if the blob directory is absent, then one write per
/// named upload.
pub open spec fn persist_ops(m: FsMap, dir: Seq<char>, files: Seq<UploadFile>) -> nat {
    (if m.contains_key(dir) {
        0nat
    } else {
        1nat
    }) + named_count(files)
}

/// The blob directory's contents after staging the uploads over `d0`: the
/// content file is written with the post's body, every other named upload
/// with its own bytes, in upload order; nameless uploads are skipped.
pub open spec fn staged_dir(d0: DirV, files: Seq<UploadFile>, content: Seq<char>) -> DirV
    decreases files.len(),
{
    if files.len() == 0 {
        d0
    } else {
        let prev = staged_dir(d0, files.drop_last(), content);
        match files.last().name {
            Some(n) => if ends_with_spec(n@, ".md"@) {
                dir_upsert(prev, n@, encode_utf8(content))
            } else {
                dir_upsert(prev, n@, files.last().data@)
            },
            None => prev,
        }
    }
}

/// Stage every upload into the blob directory named `blob` and confirm the
/// session; on any filesystem failure the whole directory is purged.
///
/// Succeeds exactly when no fault fires within the staging operations.  On
/// success the directory holds the staged files (over whatever it held
/// before); on failure it is gone, and everything else is untouched.
pub fn persist_post_and_attachments(
    fs: &mut Disk,
    storage: &BlobStorage,
    files: &Vec<UploadFile>,
    post: &Post,
    blob: &String,
) -> (r: Result<(), ()>)
    requires
        old(fs).wf(),
    ensures
        final(fs).wf(),
        ({
            let dir = storage.blob_dir_spec(blob@);
            let d0 = if old(fs)@.contains_key(dir) {
                old(fs)@[dir]
            } else {
                Seq::empty()
            };
            let ops = persist_ops(old(fs)@, dir, files@);
            &&& (r is Ok <==> !plan_fires(old(fs).plan(), ops))
            &&& (r is Ok ==> final(fs)@ == old(fs)@.insert(
                dir,
                staged_dir(d0, files@, post.content@),
            ) && final(fs).plan() == plan_after(old(fs).plan(), ops))
            &&& (r is Err ==> final(fs)@ == old(fs)@.remove(dir) && final(fs).plan() is None)
        }),
{
    let ghost dir = storage.blob_dir_spec(blob@);
    let ghost m0 = old(fs)@;
    let ghost plan0 = old(fs).plan();
    let ghost d0 = if old(fs)@.contains_key(dir) {
        old(fs)@[dir]
    } else {
        Seq::<(Seq<char>, Seq<u8>)>::empty()
    };
    let ghost init_ops: nat = if old(fs)@.contains_key(dir) {
        0nat
    } else {
        1nat
    };
    let mut driver = storage.post_storage_driver(blob.as_str());
    if driver.try_init(fs).is_err() {
        proof {
            assert(plan_fires(plan0, persist_ops(m0, dir, files@)));
            assert(fs@ =~= m0.remove(dir));
        }
        driver.finish(fs);
        return Err(());
    }
    proof {
        assert(fs@ =~= m0.insert(dir, d0));
    }
    let n = files.len();
    let mut i: usize = 0;
    while i < n
        invariant
            i <= n,
            n == files@.len(),
            fs.wf(),
            m0 == old(fs)@,
            plan0 == old(fs).plan(),
            driver.path() == dir,
            !driver.confirmed(),
            dir == storage.blob_dir_spec(blob@),
            d0 == (if m0.contains_key(dir) {
                m0[dir]
            } else {
                Seq::<(Seq<char>, Seq<u8>)>::empty()
            }),
            init_ops == (if m0.contains_key(dir) {
                0nat
            } else {
                1nat
            }),
            fs@ == m0.insert(dir, staged_dir(d0, files@.take(i as int), post.content@)),
            fs.plan() == plan_after(plan0, init_ops + named_count(files@.take(i as int))),
            !plan_fires(plan0, init_ops + named_count(files@.take(i as int))),
        decreases n - i,
    {
        proof {
            assert(files@.take(i + 1).drop_last() =~= files@.take(i as int));
            assert(files@.take(i + 1).last() == files@[i as int]);
        }
        let step = match &files[i].name {
            Some(name) => {
                let nc = str_chars(name.as_str());
                let is_md = chars_end_with(&nc, ".md");
                let res = if is_md {
                    driver.post_save_content(fs, name, post.content.as_str())
                } else {
                    let data = copy_bytes(&files[i].data);
                    driver.post_save_attachment(fs, name, data)
                };
                res
            },
            None => Ok(()),
        };
        if step.is_err() {
            proof {
                assert(plan_fires(plan0, init_ops + named_count(files@.take(i + 1))));
                assert(plan_fires(plan0, persist_ops(m0, dir, files@))) by {
                    lemma_named_count_mono(files@, i + 1);
                }
                assert(driver.writing());
                assert(fs.plan() is None);
            }
            driver.finish(fs);
            proof {
                assert(fs@ =~= m0.remove(dir));
            }
            return Err(());
        }
        i = i + 1;
    }
    proof {
        assert(files@.take(n as int) =~= files@);
    }
    driver.confirm_saved();
    driver.finish(fs);
    Ok(())
}

/// What a successful upload answers: the new row's id and final slug.
#[derive(Debug)]
pub struct UploadReceipt {
    pub id: String,
    pub slug: String,
}

/// A post read back by slug: the row's fields and the content file bytes.
#[derive(Debug)]
pub struct FetchedPost {
    pub id: String,
    pub slug: String,
    pub title: String,
    pub date: i64,
    pub content: Vec<u8>,
}

/// The row a successful upload inserts: a fresh id that also names the
/// blob, the unique slug, and the assembled title, date.
pub open spec fn created_row(pv: PostV, id: Seq<char>, uniq: Seq<char>) -> RowV {
    RowV { id: id, slug: uniq, title: pv.title, date: pv.date, blob: id }
}

/// The uploads parse to a post: one carries the content, in valid UTF-8.
pub open spec fn upload_readable(files: Seq<UploadFile>) -> bool {
    content_file_index(files) matches Some(i) && valid_utf8(files[i].data@)
}

/// The post an upload assembles to, with `id` and `now` as defaults.
pub open spec fn upload_post_view(files: Seq<UploadFile>, id: Seq<char>, now: i64) -> PostV {
    assembled_post(decode_utf8(files[content_file_index(files)->0].data@), id, now)
}

/// The unique slug a create derives against the stored rows.
pub open spec fn fresh_slug(rows: Seq<RowV>, pv: PostV) -> Seq<char> {
    next_slug_spec(pv.slug, matching_slugs(rows, pv.slug))
}

/// Create a post: assemble it from the uploads, derive a unique slug
/// against the stored rows, stage content and attachments into the blob
/// directory named by `post_id`, and insert the row — the row is committed
/// only after staging succeeded, and failed staging leaves no directory
/// behind.
///
/// `post_id` is the fresh identifier for the row and its blob; `now` is the
/// current time for a post without a date.
pub fn upload_post(
    store: &mut PostStore,
    fs: &mut Disk,
    storage: &BlobStorage,
    files: &Vec<UploadFile>,
    post_id: &String,
    now: i64,
) -> (r: Result<UploadReceipt, PostsError>)
    requires
        old(store).wf(),
        old(fs).wf(),
    ensures
        final(store).wf(),
        final(fs).wf(),
        ({
            let pv = upload_post_view(files@, post_id@, now);
            let uniq = fresh_slug(old(store)@, pv);
            let dir = storage.blob_dir_spec(post_id@);
            let d0 = if old(fs)@.contains_key(dir) {
                old(fs)@[dir]
            } else {
                Seq::empty()
            };
            let conflict = (exists|j: int|
                0 <= j < old(store)@.len() && (#[trigger] old(store)@[j].id) == post_id@) || (
            exists|j: int|
                0 <= j < old(store)@.len() && (#[trigger] old(store)@[j].slug) == uniq) || (
            exists|j: int|
                0 <= j < old(store)@.len() && (#[trigger] old(store)@[j].blob) == post_id@);
            let fired = plan_fires(old(fs).plan(), persist_ops(old(fs)@, dir, files@));
            &&& (!upload_readable(files@) ==> r is Err && final(store)@ == old(store)@ && final(fs)@ == old(fs)@ && final(fs).plan() == old(fs).plan())
            &&& (upload_readable(files@) && conflict ==> r is Err && final(store)@ == old(store)@
                && final(fs)@ == old(fs)@ && final(fs).plan() == old(fs).plan())
            &&& (upload_readable(files@) && !conflict && fired ==> r is Err && final(store)@ == old(store)@ && final(fs)@ == old(fs)@.remove(dir) && final(fs).plan() is None)
            &&& (upload_readable(files@) && !conflict && !fired ==> ({
                &&& r matches Ok(receipt) && receipt.id@ == post_id@ && receipt.slug@ == uniq
                &&& final(store)@ == old(store)@.insert(
                    insert_pos(old(store)@, pv.date),
                    created_row(pv, post_id@, uniq),
                )
                &&& final(fs)@ == old(fs)@.insert(dir, staged_dir(d0, files@, pv.content))
                &&& final(fs).plan() == plan_after(
                    old(fs).plan(),
                    persist_ops(old(fs)@, dir, files@),
                )
            }))
            &&& (r is Err ==> (r matches Err(e) && e is UnexpectedError))
        }),
{
    let post = match split_post_content_from_files(files, post_id, now) {
        Ok(p) => p,
        Err(e) => {
            return Err(e);
        },
    };
    let existing = store.slugs_matching(&post.metadata.slug);
    let uniq_slug = crate::sluggen::generate_uniq_slug(&post.metadata.slug, &existing);
    let mut conflict = store.find_by_id(post_id).is_some();
    conflict = conflict || store.find_by_slug(&uniq_slug).is_some();
    conflict = conflict || store.contains_blob(post_id);
    proof {
        crate::store::lemma_id_index_props(old(store)@, post_id@);
        crate::store::lemma_slug_index_props(old(store)@, uniq_slug@);
    }
    if conflict {
        return Err(PostsError::UnexpectedError("Failed to insert post".to_owned()));
    }
    if persist_post_and_attachments(fs, storage, files, &post, post_id).is_err() {
        return Err(PostsError::UnexpectedError("Failed to save post".to_owned()));
    }
    let rec = crate::store::PostRecord {
        id: post_id.clone(),
        slug: uniq_slug.clone(),
        title: post.metadata.title.clone(),
        date: post.metadata.date,
        blob: post_id.clone(),
    };
    match store.insert(rec) {
        Ok(_) => {},
        Err(_) => {
            proof {
                assert(false);
            }
            return Err(PostsError::UnexpectedError("Failed to insert post".to_owned()));
        },
    }
    Ok(UploadReceipt { id: post_id.clone(), slug: uniq_slug })
}

/// The slug an update settles on: regenerated from the new title when the
/// title changed, the stored slug kept when it did not.
pub open spec fn updated_slug(rows: Seq<RowV>, row: RowV, pv: PostV) -> Seq<char> {
    if row.title != pv.title {
        fresh_slug(rows, pv)
    } else {
        row.slug
    }
}

/// Update a post by id: assemble the new post, re-derive the slug when the
/// title changed, stage the new files under the brand-new blob `new_blob`,
/// and only after that staging is confirmed delete the old blob directory
/// (best effort) and commit the row.  A staging failure leaves the old blob
/// and the row untouched, so a reader always finds one intact blob.
pub fn update_post(
    store: &mut PostStore,
    fs: &mut Disk,
    storage: &BlobStorage,
    post_id: &String,
    files: &Vec<UploadFile>,
    new_blob: &String,
    now: i64,
) -> (r: Result<(), PostsError>)
    requires
        old(store).wf(),
        old(fs).wf(),
    ensures
        final(store).wf(),
        final(fs).wf(),
        ({
            let ii = id_index(old(store)@, post_id@);
            let row = old(store)@[ii->0];
            let pv = upload_post_view(files@, post_id@, now);
            let newslug = updated_slug(old(store)@, row, pv);
            let newdir = storage.blob_dir_spec(new_blob@);
            let olddir = storage.blob_dir_spec(row.blob);
            let d0 = if old(fs)@.contains_key(newdir) {
                old(fs)@[newdir]
            } else {
                Seq::empty()
            };
            let conflict = (exists|j: int|
                0 <= j < old(store)@.len() && j != ii->0 && (#[trigger] old(store)@[j].slug)
                    == newslug) || (exists|j: int|
                0 <= j < old(store)@.len() && (#[trigger] old(store)@[j].blob) == new_blob@);
            let ops = persist_ops(old(fs)@, newdir, files@);
            let fired = plan_fires(old(fs).plan(), ops);
            let p2 = plan_after(old(fs).plan(), ops);
            let staged = old(fs)@.insert(newdir, staged_dir(d0, files@, pv.content));
            &&& (ii is None ==> (r matches Err(e) && e is NotFoundError) && final(store)@ == old(store)@ && final(fs)@ == old(fs)@ && final(fs).plan() == old(fs).plan())
            &&& (ii is Some && !upload_readable(files@) ==> (r matches Err(e) && e is UnexpectedError) && final(store)@ == old(store)@ && final(fs)@ == old(fs)@
                && final(fs).plan() == old(fs).plan())
            &&& (ii is Some && upload_readable(files@) && conflict ==> (r matches Err(e) && e is UnexpectedError) && final(store)@ == old(store)@ && final(fs)@ == old(fs)@
                && final(fs).plan() == old(fs).plan())
            &&& (ii is Some && upload_readable(files@) && !conflict && fired ==> (r matches Err(e) && e is UnexpectedError) && final(store)@ == old(store)@ && final(fs)@ == old(fs)@.remove(newdir) && final(fs).plan() is None)
            &&& (ii is Some && upload_readable(files@) && !conflict && !fired ==> ({
                &&& r is Ok
                &&& row.blob != new_blob@
                &&& final(store)@ == old(store)@.update(
                    ii->0,
                    RowV {
                        id: post_id@,
                        slug: newslug,
                        title: pv.title,
                        date: row.date,
                        blob: new_blob@,
                    },
                )
                &&& final(fs)@ == (if plan_hits(p2) {
                    staged
                } else {
                    staged.remove(olddir)
                })
                &&& final(fs)@.contains_key(newdir) && final(fs)@[newdir] == staged_dir(
                    d0,
                    files@,
                    pv.content,
                )
                &&& !plan_hits(p2) ==> !final(fs)@.contains_key(olddir)
                &&& final(fs).plan() == plan_ticks(p2)
            }))
        }),
{
    let existing_post = match store.find_by_id(post_id) {
        Some(rec) => rec,
        None => {
            return Err(PostsError::NotFoundError("Post to upload not found".to_owned()));
        },
    };
    let post = match split_post_content_from_files(files, post_id, now) {
        Ok(p) => p,
        Err(e) => {
            return Err(e);
        },
    };
    let new_slug = if existing_post.title != post.metadata.title {
        let matching = store.slugs_matching(&post.metadata.slug);
        crate::sluggen::generate_uniq_slug(&post.metadata.slug, &matching)
    } else {
        existing_post.slug.clone()
    };
    let ghost rows = old(store)@;
    let ghost ii = id_index(rows, post_id@)->0;
    proof {
        crate::store::lemma_id_index_props(rows, post_id@);
        assert(rows[ii].id == post_id@);
    }
    let slug_taken = match store.find_by_slug(&new_slug) {
        Some(other) => {
            if other.id != *post_id {
                proof {
                    crate::store::lemma_slug_index_props(rows, new_slug@);
                    let k = slug_index(rows, new_slug@)->0;
                    assert(rows[k].slug == new_slug@);
                    assert(rows[k].id != post_id@);
                    assert(k != ii);
                }
                true
            } else {
                proof {
                    crate::store::lemma_slug_index_props(rows, new_slug@);
                    let k = slug_index(rows, new_slug@)->0;
                    assert(rows[k].slug == new_slug@);
                    assert(rows[k].id == post_id@);
                    assert forall|j: int|
                        0 <= j < rows.len() && j != ii implies (#[trigger] rows[j].slug)
                            != new_slug@ by {
                        if rows[j].slug == new_slug@ {
                            if j != k {
                                assert(rows[j].slug == rows[k].slug);
                            }
                            if k != ii {
                                assert(rows[k].id == rows[ii].id);
                            }
                        }
                    }
                }
                false
            }
        },
        None => {
            proof {
                crate::store::lemma_slug_index_props(rows, new_slug@);
                assert forall|j: int|
                    0 <= j < rows.len() && j != ii implies (#[trigger] rows[j].slug)
                        != new_slug@ by {}
            }
            false
        },
    };
    let conflict = slug_taken || store.contains_blob(new_blob);
    if conflict {
        return Err(PostsError::UnexpectedError("Failed to update post".to_owned()));
    }
    if persist_post_and_attachments(fs, storage, files, &post, new_blob).is_err() {
        return Err(PostsError::UnexpectedError("Failed to update post blob".to_owned()));
    }
    let old_blob_driver = storage.post_storage_driver(existing_post.blob.as_str());
    let cleanup = old_blob_driver.post_clear_all(fs);
    if cleanup.is_err() {
        // Leftover files of the old blob are only logged, never a failure.
    }
    match store.update_row(post_id, &post.metadata.title, &new_slug, new_blob) {
        Ok(_) => {},
        Err(_) => {
            proof {
                assert(false);
            }
            return Err(PostsError::UnexpectedError("Failed to update post".to_owned()));
        },
    }
    proof {
        assert(rows[ii].blob != new_blob@);
        lemma_blob_dirs_distinct(storage, rows[ii].blob, new_blob@);
    }
    Ok(())
}

/// Delete a post by id: remove its row, then best-effort delete its blob
/// directory; cleanup failure never fails the deletion.  An unknown id is
/// rejected with nothing touched.
pub fn delete_post(store: &mut PostStore, fs: &mut Disk, storage: &BlobStorage, post_id: &String) -> (r:
    Result<crate::store::PostRecord, PostsError>)
    requires
        old(store).wf(),
        old(fs).wf(),
    ensures
        final(store).wf(),
        final(fs).wf(),
        ({
            let ii = id_index(old(store)@, post_id@);
            let row = old(store)@[ii->0];
            let dir = storage.blob_dir_spec(row.blob);
            &&& (ii is None ==> (r matches Err(e) && e is NotFoundError
                && e->NotFoundError_0@ == "Failed to delete because Post with id "@ + post_id@
                + " is not found"@) && final(store)@ == old(store)@ && final(fs)@ == old(fs)@
                && final(fs).plan() == old(fs).plan())
            &&& (ii is Some ==> ({
                &&& r matches Ok(rec) && rec@ == row
                &&& final(store)@ == old(store)@.remove(ii->0)
                &&& final(fs).plan() == plan_ticks(old(fs).plan())
                &&& final(fs)@ == (if plan_hits(old(fs).plan()) {
                    old(fs)@
                } else {
                    old(fs)@.remove(dir)
                })
            }))
        }),
{
    let deleted = match store.delete_by_id(post_id) {
        Some(rec) => rec,
        None => {
            let mut msg = "Failed to delete because Post with id ".to_owned();
            msg.append(post_id.as_str());
            msg.append(" is not found");
            proof {
                assert(msg@ =~= "Failed to delete because Post with id "@ + post_id@
                    + " is not found"@);
            }
            return Err(PostsError::NotFoundError(msg));
        },
    };
    let blob_driver = storage.post_storage_driver(deleted.blob.as_str());
    let cleanup = blob_driver.post_clear_all(fs);
    if cleanup.is_err() {
        // Leftover blob files are only logged; the post is still deleted.
    }
    proof {
        if !plan_hits(old(fs).plan()) && !old(fs)@.contains_key(
            storage.blob_dir_spec(deleted.blob@),
        ) {
            assert(old(fs)@.remove(storage.blob_dir_spec(deleted.blob@)) =~= old(fs)@);
        }
    }
    Ok(deleted)
}

/// Index of the first name ending in `.md`.
pub open spec fn first_md_index(names: Seq<Seq<char>>) -> Option<int>
    decreases names.len(),
{
    if names.len() == 0 {
        None
    } else if ends_with_spec(names.first(), ".md"@) {
        Some(0)
    } else {
        match first_md_index(names.drop_first()) {
            Some(i) => Some(i + 1),
            None => None,
        }
    }
}

proof fn lemma_first_md_found(names: Seq<Seq<char>>, p: int)
    requires
        0 <= p < names.len(),
        ends_with_spec(names[p], ".md"@),
        forall|j: int| 0 <= j < p ==> !ends_with_spec(names[j], ".md"@),
    ensures
        first_md_index(names) == Some(p),
    decreases p,
{
    if p > 0 {
        assert forall|j: int|
            0 <= j < p - 1 implies !ends_with_spec(names.drop_first()[j], ".md"@) by {
            assert(names.drop_first()[j] == names[j + 1]);
        }
        assert(names.drop_first()[p - 1] == names[p]);
        lemma_first_md_found(names.drop_first(), p - 1);
    }
}

proof fn lemma_first_md_none(names: Seq<Seq<char>>)
    requires
        forall|j: int| 0 <= j < names.len() ==> !ends_with_spec(names[j], ".md"@),
    ensures
        first_md_index(names) is None,
    decreases names.len(),
{
    if names.len() > 0 {
        assert forall|j: int|
            0 <= j < names.drop_first().len() implies !ends_with_spec(
            names.drop_first()[j],
            ".md"@,
        ) by {
            assert(names.drop_first()[j] == names[j + 1]);
        }
        lemma_first_md_none(names.drop_first());
    }
}

/// Index of the first name ending in `.md`, walking the names in order.
fn find_md_name(names: &Vec<String>) -> (r: Option<usize>)
    ensures
        match r {
            Some(k) => first_md_index(names.deep_view()) == Some(k as int) && k < names@.len(),
            None => first_md_index(names.deep_view()) is None,
        },
{
    let n = names.len();
    let mut k: usize = 0;
    while k < n
        invariant
            k <= n,
            n == names@.len(),
            names.deep_view().len() == n,
            forall|j: int| 0 <= j < n ==> (#[trigger] names.deep_view()[j]) == names@[j]@,
            forall|j: int| 0 <= j < k ==> !ends_with_spec(names.deep_view()[j], ".md"@),
        decreases n - k,
    {
        let nc = str_chars(names[k].as_str());
        if chars_end_with(&nc, ".md") {
            proof {
                lemma_first_md_found(names.deep_view(), k as int);
            }
            return Some(k);
        }
        k = k + 1;
    }
    proof {
        lemma_first_md_none(names.deep_view());
    }
    None
}

/// Read a post by slug: its row and the bytes of the first `.md` file in
/// its blob directory.  A missing row is not found; a missing directory or
/// a directory without a content file is a server error, distinct from not
/// found.
pub fn get_post_by_slug(store: &PostStore, fs: &Disk, storage: &BlobStorage, slug: &String) -> (r:
    Result<FetchedPost, PostsError>)
    requires
        fs.wf(),
    ensures
        ({
            let si = slug_index(store@, slug@);
            let row = store@[si->0];
            let dir = storage.blob_dir_spec(row.blob);
            match r {
                Ok(fp) => {
                    &&& si is Some
                    &&& fp.id@ == row.id && fp.slug@ == row.slug && fp.title@ == row.title
                        && fp.date == row.date
                    &&& fs@.contains_key(dir)
                    &&& first_md_index(dir_names(fs@[dir])) matches Some(k) && dir_lookup(
                        fs@[dir],
                        dir_names(fs@[dir])[k],
                    ) == Some(fp.content@)
                },
                Err(e) => {
                    &&& (si is None <==> e is NotFoundError)
                    &&& (si is None ==> e->NotFoundError_0@ == "Post with slug `"@ + slug@
                        + "` not found"@)
                    &&& (si is Some ==> !fs@.contains_key(dir) || first_md_index(
                        dir_names(fs@[dir]),
                    ) is None)
                },
            }
        }),
{
    let row = match store.find_by_slug(slug) {
        Some(rec) => rec,
        None => {
            let mut msg = "Post with slug `".to_owned();
            msg.append(slug.as_str());
            msg.append("` not found");
            proof {
                assert(msg@ =~= "Post with slug `"@ + slug@ + "` not found"@);
            }
            return Err(PostsError::NotFoundError(msg));
        },
    };
    let dir = storage.single_post_dir(row.blob.as_str());
    let names = match fs.dir_file_names(&dir) {
        Some(names) => names,
        None => {
            return Err(
                PostsError::UnexpectedError("Failed to locate post content file".to_owned()),
            );
        },
    };
    let md = match find_md_name(&names) {
        Some(k) => k,
        None => {
            return Err(
                PostsError::UnexpectedError("Failed to locate post content file".to_owned()),
            );
        },
    };
    proof {
        crate::disk::lemma_dir_names_lookup(fs@[dir@], md as int);
    }
    let content = match fs.read_file(&dir, &names[md]) {
        Some(data) => copy_bytes(data),
        None => {
            proof {
                assert(false);
            }
            return Err(PostsError::UnexpectedError("Failed to read post content".to_owned()));
        },
    };
    Ok(
        FetchedPost {
            id: row.id,
            slug: row.slug,
            title: row.title,
            date: row.date,
            content,
        },
    )
}

/// Read one attachment of a post by slug and file name; both an unknown
/// slug and an unknown file name are not found.
pub fn get_post_attachment(
    store: &PostStore,
    fs: &Disk,
    storage: &BlobStorage,
    slug: &String,
    attachment: &String,
) -> (r: Result<Vec<u8>, PostsError>)
    requires
        fs.wf(),
    ensures
        ({
            let si = slug_index(store@, slug@);
            let row = store@[si->0];
            let dir = storage.blob_dir_spec(row.blob);
            match r {
                Ok(data) => si is Some && fs@.contains_key(dir) && dir_lookup(
                    fs@[dir],
                    attachment@,
                ) == Some(data@),
                Err(e) => {
                    &&& e is NotFoundError
                    &&& (si is Some ==> !fs@.contains_key(dir) || dir_lookup(
                        fs@[dir],
                        attachment@,
                    ) is None)
                },
            }
        }),
{
    let row = match store.find_by_slug(slug) {
        Some(rec) => rec,
        None => {
            let mut msg = "Post attachment with slug `".to_owned();
            msg.append(slug.as_str());
            msg.append("` not found");
            return Err(PostsError::NotFoundError(msg));
        },
    };
    let dir = storage.single_post_dir(row.blob.as_str());
    match fs.read_file(&dir, attachment) {
        Some(data) => Ok(copy_bytes(data)),
        None => {
            let mut msg = "File not found: ".to_owned();
            msg.append(slug.as_str());
            proof {
                reveal_strlit("/");
            }
            msg.append("/");
            msg.append(attachment.as_str());
            Err(PostsError::NotFoundError(msg))
        },
    }
}

/// The page of post summaries for the raw query parameters: a missing or
/// unparsable page defaults to 1, a missing or unparsable page size to 10,
/// and non-positive values request everything.
pub fn get_all_posts(
    store: &PostStore,
    page_param: Option<&String>,
    page_size_param: Option<&String>,
) -> (r: Vec<crate::store::PostSummary>)
    ensures
        ({
            let page = match page_param {
                Some(s) => crate::textutil::parsed_i64_or(s@, 1),
                None => 1i64,
            };
            let page_size = match page_size_param {
                Some(s) => crate::textutil::parsed_i64_or(s@, 10),
                None => 10i64,
            };
            let bounds = crate::store::page_range(store@.len() as int, page, page_size);
            &&& r@.len() == bounds.1 - bounds.0
            &&& forall|k: int|
                0 <= k < r@.len() ==> ((#[trigger] r@[k]).id@ == store@[bounds.0 + k].id
                    && r@[k].slug@ == store@[bounds.0 + k].slug && r@[k].title@ == store@[bounds.0
                    + k].title && r@[k].date == store@[bounds.0 + k].date)
        }),
{
    let page: i64 = match page_param {
        Some(s) => crate::textutil::parse_i64_or(s.as_str(), 1),
        None => 1,
    };
    let page_size: i64 = match page_size_param {
        Some(s) => crate::textutil::parse_i64_or(s.as_str(), 10),
        None => 10,
    };
    store.page(page, page_size)
}

/// How many posts are stored.
pub fn posts_count(store: &PostStore) -> (n: usize)
    ensures
        n == store@.len(),
{
    store.count()
}

/// Update swap atomicity, at the map level: writing the new blob directory
/// and only then removing the old one leaves exactly the new directory with
/// the staged files, and no old directory — the shape a successful update
/// leaves behind.
pub proof fn lemma_two_phase_swap(m: FsMap, newdir: Seq<char>, olddir: Seq<char>, d: DirV)
    requires
        newdir != olddir,
    ensures
        !m.insert(newdir, d).remove(olddir).contains_key(olddir),
        m.insert(newdir, d).remove(olddir).contains_key(newdir),
        m.insert(newdir, d).remove(olddir)[newdir] == d,
{
}

/// Distinct blobs live in distinct directories, so the two-phase swap of an
/// update never touches the blob it is replacing.
pub proof fn lemma_blob_dirs_distinct(storage: &BlobStorage, a: Seq<char>, b: Seq<char>)
    requires
        a != b,
    ensures
        storage.blob_dir_spec(a) != storage.blob_dir_spec(b),
{
    crate::storage::lemma_joined_injective(storage.posts_dir_spec(), a, b);
}

/// A prefix never counts more named uploads than the whole.
proof fn lemma_named_count_mono(files: Seq<UploadFile>, k: int)
    requires
        0 <= k <= files.len(),
    ensures
        named_count(files.take(k)) <= named_count(files),
    decreases files.len() - k,
{
    if k < files.len() {
        lemma_named_count_mono(files, k + 1);
        assert(files.take(k + 1).drop_last() =~= files.take(k));
        assert(named_count(files.take(k)) <= named_count(files.take(k + 1)));
    } else {
        assert(files.take(k) =~= files);
    }
}

} // verus!
