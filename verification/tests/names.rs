use cloud_storage::names::{
    bucket_id, example_bucket_name, folder_name, object_name, project_name, secret_name,
    short_bucket_name, strip_prefix, BUCKET_NAME, PROJECT_ID,
};
use cloud_storage::text::{decimal_text, gibibytes, size_text, GIB, KIB, MIB};

#[test]
fn bucket_id_prefixes_the_short_name() {
    assert_eq!(bucket_id("my-bucket"), "projects/_/buckets/my-bucket");
    assert_eq!(bucket_id(""), "projects/_/buckets/");
    assert_eq!(
        bucket_id(BUCKET_NAME),
        "projects/_/buckets/my-bucket-6624150a-c3ca-491a-8071-0561f63e7a0b"
    );
}

#[test]
fn example_buckets_are_told_apart_by_their_ending() {
    assert_eq!(
        example_bucket_name("6624150a-c3ca-491a-8071-0561f63e7a0b"),
        BUCKET_NAME
    );
    assert_eq!(example_bucket_name(""), "my-bucket-");
    assert_ne!(example_bucket_name("a"), example_bucket_name("b"));
}

#[test]
fn the_crate_root_offers_the_bucket_names() {
    assert_eq!(cloud_storage::bucket_id("b"), "projects/_/buckets/b");
    assert_eq!(cloud_storage::PROJECT_ID, "gcp-for-rust");
    assert_eq!(cloud_storage::BUCKET_NAME, BUCKET_NAME);
}

#[test]
fn project_name_prefixes_the_id() {
    assert_eq!(project_name(PROJECT_ID), "projects/gcp-for-rust");
    assert_eq!(project_name(""), "projects/");
}

#[test]
fn decimal_text_matches_the_usual_numeral() {
    for n in [0u64, 1, 9, 10, 11, 42, 99, 100, 101, 1_048_576, 10_000_003, u64::MAX] {
        assert_eq!(decimal_text(n), n.to_string());
    }
    assert_eq!(decimal_text(0), "0");
    assert_eq!(decimal_text(1234567890), "1234567890");
    assert_eq!(decimal_text(u64::MAX), "18446744073709551615");
}

#[test]
fn sizes_are_labelled_in_the_largest_unit_that_divides_them() {
    assert_eq!(KIB, 1 << 10);
    assert_eq!(MIB, 1 << 20);
    assert_eq!(GIB, 1 << 30);
    assert_eq!(size_text(0), "0B");
    assert_eq!(size_text(1), "1B");
    assert_eq!(size_text(1023), "1023B");
    assert_eq!(size_text(1024), "1KiB");
    assert_eq!(size_text(1536), "1536B");
    assert_eq!(size_text(5 * 1024), "5KiB");
    assert_eq!(size_text(1_048_576), "1MiB");
    assert_eq!(size_text(33_554_432), "32MiB");
    assert_eq!(size_text(1_073_741_824), "1GiB");
    assert_eq!(size_text(3 * 1_073_741_824 + 1_048_576), "3073MiB");
    assert_eq!(size_text(u64::MAX), "18446744073709551615B");
    assert_eq!(size_text(1 << 63), "8589934592GiB");
}

#[test]
fn gibibytes_are_counted_in_bytes() {
    assert_eq!(gibibytes(0), Some(0));
    assert_eq!(gibibytes(2), Some(2_147_483_648));
    assert_eq!(gibibytes(4), Some(4_294_967_296));
    assert_eq!(gibibytes((1 << 34) - 1), Some(u64::MAX - GIB + 1));
    assert_eq!(gibibytes(1 << 34), None);
    assert_eq!(gibibytes(u64::MAX), None);
}

#[test]
fn objects_are_named_after_their_size() {
    assert_eq!(object_name(1_048_576), "1MiB.txt");
    assert_eq!(object_name(33_554_432), "32MiB.txt");
    assert_eq!(object_name(1_073_741_824), "1GiB.txt");
    assert_eq!(object_name(2 * 1_073_741_824), "2GiB.txt");
    assert_eq!(object_name(4 * 1_073_741_824), "4GiB.txt");
    assert_eq!(object_name(10), "10B.txt");
}

#[test]
fn short_bucket_names_are_read_back_from_resource_names() {
    assert_eq!(
        short_bucket_name("projects/_/buckets/my-bucket"),
        Some("my-bucket".to_string())
    );
    assert_eq!(short_bucket_name("projects/_/buckets/"), Some(String::new()));
    assert_eq!(short_bucket_name("projects/_/buckets"), None);
    assert_eq!(short_bucket_name("projects/x/buckets/my-bucket"), None);
    assert_eq!(short_bucket_name("my-bucket"), None);
    assert_eq!(short_bucket_name(""), None);
    for name in ["", "b", "my-bucket", "projects/_/buckets/", "b\u{fc}cket-\u{65e5}\u{672c}"] {
        assert_eq!(short_bucket_name(&bucket_id(name)), Some(name.to_string()));
    }
}

#[test]
fn prefixes_are_stripped_by_characters() {
    assert_eq!(strip_prefix("abc", "ab"), Some("c".to_string()));
    assert_eq!(strip_prefix("abc", ""), Some("abc".to_string()));
    assert_eq!(strip_prefix("abc", "abc"), Some(String::new()));
    assert_eq!(strip_prefix("abc", "abcd"), None);
    assert_eq!(strip_prefix("abc", "b"), None);
    assert_eq!(strip_prefix("\u{e9}t\u{e9}", "\u{e9}"), Some("t\u{e9}".to_string()));
    assert_eq!(strip_prefix("\u{e9}t\u{e9}", "e"), None);
}

#[test]
fn folders_are_named_within_their_bucket() {
    assert_eq!(
        folder_name("my-bucket", "manual"),
        "projects/_/buckets/my-bucket/folders/manual"
    );
    assert_eq!(folder_name("", ""), "projects/_/buckets//folders/");
}

#[test]
fn secrets_are_named_within_their_project() {
    assert_eq!(
        secret_name("gcp-for-rust", "my-secret"),
        "projects/gcp-for-rust/secrets/my-secret"
    );
    assert_eq!(secret_name("", ""), "projects//secrets/");
}
