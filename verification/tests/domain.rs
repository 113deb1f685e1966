//! Tests of the post domain: delimiter splitting, front-matter parsing,
//! builder defaults, rendering, and the text helpers.

use pine_tails::posts::Post;
use pine_tails::posts::PostBuilder;
use pine_tails::posts::PostMetadata;
use pine_tails::sluggen::generate_uniq_slug;
use pine_tails::storage::join_path;
use pine_tails::textutil::parse_i64_or;
use chrono::Datelike;

#[test]
fn test_regex_get_right_section_of_metadata() {
    let raw = "------\n        title: \"My first post\"\n        ";
    let matched_head = pine_tails::posts::first_meta_delimiter(raw).unwrap();
    assert_eq!(matched_head.0, 0);
    assert_eq!(matched_head.1, 7);
}

#[test]
fn get_post_ok_from_valid_metadata() {
    let raw = "\n------\ntitle: \"My first post\"\nslug: \"my-first-post\"\ndate: \"2021-09-07T12:00:00Z\"\n------\n\n# Hello world\n\nWhat a wonderful world!\n        ";

    let bd = PostBuilder::from_raw_post(raw);
    let post = bd.build("fallback-id", chrono::Utc::now().timestamp());
    assert_eq!(post.metadata.title, "My first post".to_string());
    assert_eq!(post.metadata.slug, "my-first-post".to_string());
    assert_eq!(
        post.metadata.date,
        chrono::DateTime::parse_from_rfc3339("2021-09-07T12:00:00Z")
            .unwrap()
            .timestamp()
    );
}

#[test]
fn get_post_ok_from_valid_metadata_but_with_fields_missing() {
    let raw = "\n------\ntitle: \"My first post\"\n------\n\n# Hello world\n\nWhat a wonderful world!\n        ";

    let expected_date = chrono::Utc::now();

    let bd = PostBuilder::from_raw_post(raw);
    let post = bd.build("fallback-id", expected_date.timestamp());
    assert_eq!(post.metadata.title, "My first post".to_string());
    assert_eq!(post.metadata.slug, "my-first-post".to_string());
    let got = chrono::DateTime::from_timestamp(post.metadata.date, 0).unwrap();
    assert_eq!(got.year(), expected_date.year());
    assert_eq!(got.month(), expected_date.month());
    assert_eq!(got.day(), expected_date.day());
}

#[test]
fn parse_metadata_should_fix_invalid_slug() {
    let raw = "\n------\nslug: \"My first post\"\n------\n        ";

    let bd = PostBuilder::from_raw_post(raw);
    let post = bd.build("fallback-id", 0);
    assert_eq!(post.metadata.slug, "my-first-post".to_string());
}

#[test]
fn try_get_post_return_err_with_invalid_metadata() {
    let raw = "\n------\ndefinitely_not_metadata\n------\n        ";

    let bd = PostBuilder::try_from_raw_post(raw);
    assert!(bd.is_err());
}

#[test]
fn can_get_post_even_with_metadata_missing() {
    let raw = "content directly";

    let bd = PostBuilder::from_raw_post(raw);
    let post = bd.build("fallback-id", 0);

    assert_eq!(post.content, "content directly");
}

#[test]
fn post_display_gives_right_format() {
    let post = Post {
        metadata: PostMetadata {
            title: "My first post".to_string(),
            slug: "my-first-post".to_string(),
            date: chrono::Utc::now().timestamp(),
        },
        content: "Hello world".to_string(),
    };

    let expected = post.to_display_string();
    assert_eq!(expected.split('\n').count(), 6);
}

#[test]
fn rendered_post_carries_exact_timestamp() {
    let post = Post {
        metadata: PostMetadata {
            title: "t".to_string(),
            slug: "t".to_string(),
            date: 1631016000,
        },
        content: "body".to_string(),
    };
    assert_eq!(
        post.to_display_string(),
        "---\ntitle: t\nslug: t\ndate: 2021-09-07T12:00:00Z\n---\nbody"
    );
}

#[test]
fn empty_content_defaults_to_placeholder() {
    let raw = "------\ntitle: \"x\"\n------\n";
    let post = PostBuilder::from_raw_post(raw).build("fallback-id", 0);
    assert_eq!(post.content, "hello");
}

#[test]
fn missing_title_uses_generated_placeholder() {
    let post = PostBuilder::new().with_content("body").build("some-id", 0);
    assert_eq!(post.metadata.title, "Post some-id");
}

#[test]
fn builder_setters_override_metadata() {
    let post = PostBuilder::new()
        .with_title("A Title")
        .with_content("c")
        .with_datetime(42)
        .build("unused", 7);
    assert_eq!(post.metadata.title, "A Title");
    assert_eq!(post.metadata.slug, "a-title");
    assert_eq!(post.metadata.date, 42);
    assert_eq!(post.content, "c");
}

#[test]
fn bad_date_invalidates_metadata_block() {
    let raw = "------\ntitle: \"x\"\ndate: \"not a date\"\n------\nbody";
    assert!(PostBuilder::try_from_raw_post(raw).is_err());
    // The lenient parse then treats everything as content.
    let post = PostBuilder::from_raw_post(raw).build("fallback-id", 0);
    assert_eq!(post.content, raw);
}

#[test]
fn test_path_join() {
    assert_eq!(join_path("/noexist", "passwd"), "/noexist/passwd".to_string());
}

#[test]
fn slug_generation_without_collision_keeps_base() {
    let existing: Vec<String> = vec![];
    assert_eq!(generate_uniq_slug(&"hello".to_string(), &existing), "hello");
}

#[test]
fn slug_generation_with_base_taken_appends_one() {
    let existing = vec!["hello".to_string()];
    assert_eq!(generate_uniq_slug(&"hello".to_string(), &existing), "hello-1");
}

#[test]
fn slug_generation_takes_max_suffix_plus_one() {
    let existing = vec!["hello".to_string(), "hello-2".to_string()];
    assert_eq!(generate_uniq_slug(&"hello".to_string(), &existing), "hello-3");
}

#[test]
fn slug_generation_treats_non_numeric_tail_as_zero() {
    let existing = vec!["hello-world".to_string()];
    assert_eq!(generate_uniq_slug(&"hello".to_string(), &existing), "hello-1");
}

#[test]
fn parse_i64_accepts_sign_and_rejects_junk() {
    assert_eq!(parse_i64_or("42", 0), 42);
    assert_eq!(parse_i64_or("-5", 0), -5);
    assert_eq!(parse_i64_or("+7", 0), 7);
    assert_eq!(parse_i64_or("abc", 9), 9);
    assert_eq!(parse_i64_or("", 9), 9);
    assert_eq!(parse_i64_or("99999999999999999999", 9), 9);
    assert_eq!(parse_i64_or("-9223372036854775808", 9), i64::MIN);
    assert_eq!(parse_i64_or("9223372036854775807", 9), i64::MAX);
}
