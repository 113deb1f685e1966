//! Model-level tests of the repository flows: the create / read / update /
//! delete paths a client would drive through the HTTP surface.

use pine_tails::disk::Disk;
use pine_tails::repository::delete_post;
use pine_tails::repository::get_all_posts;
use pine_tails::repository::get_post_attachment;
use pine_tails::repository::get_post_by_slug;
use pine_tails::repository::posts_count;
use pine_tails::repository::update_post;
use pine_tails::repository::upload_post;
use pine_tails::repository::UploadFile;
use pine_tails::storage::BlobStorage;
use pine_tails::store::PostStore;

fn setup() -> (PostStore, Disk, BlobStorage) {
    let mut fs = Disk::new();
    let storage = BlobStorage::new("base".to_string());
    storage.try_init_blob_storage(&mut fs).unwrap();
    (PostStore::new(), fs, storage)
}

fn md_upload(title: &str, content: &str) -> Vec<UploadFile> {
    let raw = format!("------\ntitle: \"{}\"\n------\n{}", title, content);
    vec![UploadFile {
        name: Some("post.md".to_string()),
        data: raw.into_bytes(),
    }]
}

#[test]
fn get_post_with_existing_slug_should_return_ok() {
    let (mut store, mut fs, storage) = setup();
    let id = "id-1".to_string();
    upload_post(&mut store, &mut fs, &storage, &md_upload("hello there", "some content"), &id, 100)
        .unwrap();

    let fetched = get_post_by_slug(&store, &fs, &storage, &"hello-there".to_string()).unwrap();
    assert_eq!(fetched.title, "hello there");
    assert_eq!(fetched.content, b"some content".to_vec());
}

#[test]
fn get_post_with_nonexisting_slug_should_return_404() {
    let (mut store, mut fs, storage) = setup();
    let id = "id-1".to_string();
    upload_post(&mut store, &mut fs, &storage, &md_upload("hello there", "some content"), &id, 100)
        .unwrap();

    let err = get_post_by_slug(&store, &fs, &storage, &"definetely-not-there".to_string())
        .unwrap_err();
    assert_eq!(err.status_code(), 404);
}

#[test]
fn get_post_by_page_returns_correct_page() {
    let (mut store, mut fs, storage) = setup();
    for i in 1..=10i64 {
        let id = format!("id-{}", i);
        let files = md_upload(&format!("hello there {}", i), "some content");
        upload_post(&mut store, &mut fs, &storage, &files, &id, 1000 - i).unwrap();
    }

    let page = get_all_posts(&store, Some(&"3".to_string()), Some(&"2".to_string()));
    assert_eq!(page.len(), 2);
    assert_eq!(page[1].title, "hello there 6");
}

#[test]
fn get_posts_count_returns_right_count() {
    let (mut store, mut fs, storage) = setup();
    for i in 1..=10i64 {
        let id = format!("id-{}", i);
        let files = md_upload(&format!("hello there {}", i), "some content");
        upload_post(&mut store, &mut fs, &storage, &files, &id, 1000 - i).unwrap();
    }
    assert_eq!(posts_count(&store), 10);
}

#[test]
fn upload_post_returns_201_and_persists_data() {
    let (mut store, mut fs, storage) = setup();
    let id = "id-1".to_string();
    let receipt =
        upload_post(&mut store, &mut fs, &storage, &md_upload("hello", "world"), &id, 100)
            .unwrap();
    assert_eq!(receipt.id, "id-1");
    assert_eq!(receipt.slug, "hello");
    let row = store.find_by_slug(&"hello".to_string()).expect("Failed to fetch post");
    assert_eq!(row.title, "hello");
    assert_eq!(row.blob, "id-1");
}

#[test]
fn upload_without_content_file_is_rejected() {
    let (mut store, mut fs, storage) = setup();
    let id = "id-1".to_string();
    let files = vec![UploadFile { name: Some("image.png".to_string()), data: vec![1, 2, 3] }];
    let err = upload_post(&mut store, &mut fs, &storage, &files, &id, 100).unwrap_err();
    assert_eq!(err.status_code(), 500);
    assert_eq!(posts_count(&store), 0);
}

#[test]
fn upload_with_invalid_utf8_content_is_rejected() {
    let (mut store, mut fs, storage) = setup();
    let id = "id-1".to_string();
    let files = vec![UploadFile { name: Some("post.md".to_string()), data: vec![0xff, 0xfe] }];
    let err = upload_post(&mut store, &mut fs, &storage, &files, &id, 100).unwrap_err();
    assert_eq!(err.status_code(), 500);
    assert_eq!(posts_count(&store), 0);
}

#[test]
fn duplicate_titles_get_numbered_slugs_in_creation_order() {
    let (mut store, mut fs, storage) = setup();
    let mut slugs = Vec::new();
    for i in 0..4i64 {
        let id = format!("id-{}", i);
        let r = upload_post(
            &mut store,
            &mut fs,
            &storage,
            &md_upload("hello there", "some content"),
            &id,
            100 + i,
        )
        .unwrap();
        slugs.push(r.slug);
    }
    assert_eq!(slugs, vec!["hello-there", "hello-there-1", "hello-there-2", "hello-there-3"]);
}

#[test]
fn update_swaps_blob_and_reslug_follows_title() {
    let (mut store, mut fs, storage) = setup();
    let id = "id-1".to_string();
    upload_post(&mut store, &mut fs, &storage, &md_upload("old title", "old body"), &id, 100)
        .unwrap();
    let old_row = store.find_by_slug(&"old-title".to_string()).unwrap();
    let old_dir = storage.single_post_dir(&old_row.blob);

    let new_blob = "blob-2".to_string();
    let files = vec![
        UploadFile {
            name: Some("post.md".to_string()),
            data: b"------\ntitle: \"new title\"\n------\nnew body".to_vec(),
        },
        UploadFile { name: Some("pic.png".to_string()), data: vec![9, 9] },
    ];
    update_post(&mut store, &mut fs, &storage, &id, &files, &new_blob, 100).unwrap();

    let row = store.find_by_id(&id).unwrap();
    assert_eq!(row.slug, "new-title");
    assert_eq!(row.blob, "blob-2");
    assert_ne!(row.blob, old_row.blob);

    // The old blob directory is gone; the new one holds exactly the files.
    assert!(!fs.dir_exists(&old_dir));
    let new_dir = storage.single_post_dir(&row.blob);
    let names = fs.dir_file_names(&new_dir).unwrap();
    assert_eq!(names, vec!["post.md".to_string(), "pic.png".to_string()]);
    assert_eq!(fs.read_file(&new_dir, &"post.md".to_string()).unwrap(), &b"new body".to_vec());
    assert_eq!(fs.read_file(&new_dir, &"pic.png".to_string()).unwrap(), &vec![9, 9]);
}

#[test]
fn update_with_unchanged_title_keeps_slug() {
    let (mut store, mut fs, storage) = setup();
    let id = "id-1".to_string();
    upload_post(&mut store, &mut fs, &storage, &md_upload("same title", "v1"), &id, 100).unwrap();
    update_post(
        &mut store,
        &mut fs,
        &storage,
        &id,
        &md_upload("same title", "v2"),
        &"blob-2".to_string(),
        100,
    )
    .unwrap();
    let row = store.find_by_id(&id).unwrap();
    assert_eq!(row.slug, "same-title");
    let fetched = get_post_by_slug(&store, &fs, &storage, &"same-title".to_string()).unwrap();
    assert_eq!(fetched.content, b"v2".to_vec());
}

#[test]
fn update_unknown_id_is_not_found() {
    let (mut store, mut fs, storage) = setup();
    let err = update_post(
        &mut store,
        &mut fs,
        &storage,
        &"no-such-id".to_string(),
        &md_upload("t", "c"),
        &"blob-9".to_string(),
        100,
    )
    .unwrap_err();
    assert_eq!(err.status_code(), 404);
}

#[test]
fn delete_unknown_id_returns_404_with_no_side_effects() {
    let (mut store, mut fs, storage) = setup();
    let id = "id-1".to_string();
    upload_post(&mut store, &mut fs, &storage, &md_upload("hello", "body"), &id, 100).unwrap();
    let dir = storage.single_post_dir("id-1");

    let err = delete_post(&mut store, &mut fs, &storage, &"random-unused-id".to_string())
        .unwrap_err();
    assert_eq!(err.status_code(), 404);
    assert_eq!(posts_count(&store), 1);
    assert!(fs.dir_exists(&dir));
}

#[test]
fn delete_removes_row_and_blob_directory() {
    let (mut store, mut fs, storage) = setup();
    let id = "id-1".to_string();
    upload_post(&mut store, &mut fs, &storage, &md_upload("hello", "body"), &id, 100).unwrap();
    let dir = storage.single_post_dir("id-1");
    assert!(fs.dir_exists(&dir));

    let deleted = delete_post(&mut store, &mut fs, &storage, &id).unwrap();
    assert_eq!(deleted.slug, "hello");
    assert_eq!(posts_count(&store), 0);
    assert!(!fs.dir_exists(&dir));
}

#[test]
fn attachments_are_served_and_missing_ones_are_404() {
    let (mut store, mut fs, storage) = setup();
    let id = "id-1".to_string();
    let files = vec![
        UploadFile { name: Some("post.md".to_string()), data: b"the body".to_vec() },
        UploadFile { name: Some("photo.jpg".to_string()), data: vec![4, 5, 6] },
        UploadFile { name: None, data: vec![7] },
    ];
    upload_post(&mut store, &mut fs, &storage, &files, &id, 100).unwrap();

    let slug = "post-id-1".to_string();
    let data =
        get_post_attachment(&store, &fs, &storage, &slug, &"photo.jpg".to_string()).unwrap();
    assert_eq!(data, vec![4, 5, 6]);
    let err = get_post_attachment(&store, &fs, &storage, &slug, &"nope.jpg".to_string())
        .unwrap_err();
    assert_eq!(err.status_code(), 404);
}

#[test]
fn page_defaults_and_show_all_mode() {
    let (mut store, mut fs, storage) = setup();
    for i in 1..=12i64 {
        let id = format!("id-{}", i);
        upload_post(
            &mut store,
            &mut fs,
            &storage,
            &md_upload(&format!("t {}", i), "c"),
            &id,
            1000 - i,
        )
        .unwrap();
    }
    // Defaults: page 1, page size 10.
    assert_eq!(get_all_posts(&store, None, None).len(), 10);
    // Unparsable parameters fall back to the defaults.
    assert_eq!(get_all_posts(&store, Some(&"x".to_string()), Some(&"y".to_string())).len(), 10);
    // A non-positive value requests everything.
    assert_eq!(get_all_posts(&store, Some(&"0".to_string()), Some(&"5".to_string())).len(), 12);
    // A page past the end is empty.
    assert_eq!(get_all_posts(&store, Some(&"4".to_string()), Some(&"10".to_string())).len(), 0);
}

#[test]
fn not_found_messages_name_the_identifier() {
    let (mut store, mut fs, storage) = setup();
    let err = get_post_by_slug(&store, &fs, &storage, &"missing-slug".to_string()).unwrap_err();
    assert_eq!(err.message(), "Post with slug `missing-slug` not found");
    let err = delete_post(&mut store, &mut fs, &storage, &"missing-id".to_string()).unwrap_err();
    assert_eq!(
        err.message(),
        "Failed to delete because Post with id missing-id is not found"
    );
}
