//! Tests of the staging protocol: confirm-or-purge sessions, idempotent
//! root initialization, and rollback under injected filesystem faults.

use pine_tails::disk::Disk;
use pine_tails::repository::fresh_uuid;
use pine_tails::repository::posts_count;
use pine_tails::repository::upload_post;
use pine_tails::repository::UploadFile;
use pine_tails::storage::BlobStorage;
use pine_tails::store::PostStore;

#[test]
fn writing_session_discarded_without_confirm_purges_directory() {
    let mut fs = Disk::new();
    let storage = BlobStorage::new("base".to_string());
    storage.try_init_blob_storage(&mut fs).unwrap();

    let mut driver = storage.post_storage_driver("blob-a");
    driver.try_init(&mut fs).unwrap();
    driver.post_save_content(&mut fs, &"post.md".to_string(), "half written").unwrap();
    let dir = storage.single_post_dir("blob-a");
    assert!(fs.dir_exists(&dir));

    // Discarded without confirm_saved: the directory must be gone.
    driver.finish(&mut fs);
    assert!(!fs.dir_exists(&dir));
}

#[test]
fn fresh_session_discarded_without_writes_changes_nothing() {
    let mut fs = Disk::new();
    let storage = BlobStorage::new("base".to_string());
    let dir = storage.single_post_dir("blob-a");
    let driver = storage.post_storage_driver("blob-a");
    driver.finish(&mut fs);
    assert!(!fs.dir_exists(&dir));
}

#[test]
fn confirmed_session_keeps_directory_and_files() {
    let mut fs = Disk::new();
    let storage = BlobStorage::new("base".to_string());
    storage.try_init_blob_storage(&mut fs).unwrap();

    let mut driver = storage.post_storage_driver("blob-b");
    driver.try_init(&mut fs).unwrap();
    driver.post_save_content(&mut fs, &"post.md".to_string(), "the content").unwrap();
    driver.post_save_attachment(&mut fs, &"a.bin".to_string(), vec![1, 2]).unwrap();
    driver.confirm_saved();
    driver.finish(&mut fs);

    let dir = storage.single_post_dir("blob-b");
    assert!(fs.dir_exists(&dir));
    assert_eq!(fs.read_file(&dir, &"post.md".to_string()).unwrap(), &b"the content".to_vec());
    assert_eq!(fs.read_file(&dir, &"a.bin".to_string()).unwrap(), &vec![1, 2]);
}

#[test]
fn overwriting_a_file_keeps_one_copy_with_new_data() {
    let mut fs = Disk::new();
    let storage = BlobStorage::new("base".to_string());
    let mut driver = storage.post_storage_driver("blob-c");
    driver.try_init(&mut fs).unwrap();
    driver.post_save_content(&mut fs, &"post.md".to_string(), "v1").unwrap();
    driver.post_save_content(&mut fs, &"post.md".to_string(), "v2").unwrap();
    driver.confirm_saved();
    driver.finish(&mut fs);

    let dir = storage.single_post_dir("blob-c");
    assert_eq!(fs.dir_file_names(&dir).unwrap(), vec!["post.md".to_string()]);
    assert_eq!(fs.read_file(&dir, &"post.md".to_string()).unwrap(), &b"v2".to_vec());
}

#[test]
fn initialize_twice_is_idempotent_and_loses_nothing() {
    let mut fs = Disk::new();
    let storage = BlobStorage::new("base".to_string());
    storage.try_init_blob_storage(&mut fs).unwrap();

    // Put a blob in place, then initialize again.
    let mut driver = storage.post_storage_driver("blob-d");
    driver.try_init(&mut fs).unwrap();
    driver.post_save_content(&mut fs, &"post.md".to_string(), "kept").unwrap();
    driver.confirm_saved();
    driver.finish(&mut fs);

    storage.try_init_blob_storage(&mut fs).unwrap();

    assert!(fs.dir_exists(&"base".to_string()));
    assert!(fs.dir_exists(&"base/posts".to_string()));
    assert!(fs.dir_exists(&"base/comments".to_string()));
    let dir = storage.single_post_dir("blob-d");
    assert_eq!(fs.read_file(&dir, &"post.md".to_string()).unwrap(), &b"kept".to_vec());
}

#[test]
fn mid_staging_fault_rolls_back_row_and_directory() {
    let mut fs = Disk::new();
    let storage = BlobStorage::new("base".to_string());
    storage.try_init_blob_storage(&mut fs).unwrap();
    let mut store = PostStore::new();

    let files = vec![
        UploadFile { name: Some("post.md".to_string()), data: b"body".to_vec() },
        UploadFile { name: Some("a.bin".to_string()), data: vec![1] },
        UploadFile { name: Some("b.bin".to_string()), data: vec![2] },
    ];
    let id = "id-1".to_string();
    // Fail on the third fallible operation: the directory creation and the
    // first write succeed, the second write fails mid-staging.
    fs.schedule_fault_after(2);
    let r = upload_post(&mut store, &mut fs, &storage, &files, &id, 100);
    assert!(r.is_err());

    // No row was committed and no partial blob directory survives.
    assert_eq!(posts_count(&store), 0);
    let dir = storage.single_post_dir("id-1");
    assert!(!fs.dir_exists(&dir));

    // With the fault spent, the same upload goes through.
    let r2 = upload_post(&mut store, &mut fs, &storage, &files, &id, 100);
    assert!(r2.is_ok());
    assert_eq!(posts_count(&store), 1);
    assert!(fs.dir_exists(&dir));
    assert_eq!(
        fs.dir_file_names(&dir).unwrap(),
        vec!["post.md".to_string(), "a.bin".to_string(), "b.bin".to_string()]
    );
}

#[test]
fn fault_on_directory_creation_leaves_filesystem_untouched() {
    let mut fs = Disk::new();
    let storage = BlobStorage::new("base".to_string());
    storage.try_init_blob_storage(&mut fs).unwrap();
    let mut store = PostStore::new();

    fs.schedule_fault_after(0);
    let files = vec![UploadFile { name: Some("post.md".to_string()), data: b"x".to_vec() }];
    let r = upload_post(&mut store, &mut fs, &storage, &files, &"id-1".to_string(), 100);
    assert!(r.is_err());
    assert_eq!(posts_count(&store), 0);
    assert!(!fs.dir_exists(&storage.single_post_dir("id-1")));
    assert!(fs.dir_exists(&"base/posts".to_string()));
}

#[test]
fn fresh_uuid_has_hyphenated_form_length() {
    assert_eq!(fresh_uuid().chars().count(), 36);
}
