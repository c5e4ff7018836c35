use cxdb::server::s3_sync::{relative_path_of, s3_key, S3Manifest, S3SyncConfig, SyncState};

#[test]
fn test_s3_key_with_prefix() {
    let key = s3_key("cxdb/prod/", "blobs/blobs.pack");
    assert_eq!(key, "cxdb/prod/blobs/blobs.pack");
}

#[test]
fn test_s3_key_no_prefix() {
    let key = s3_key("", "blobs/blobs.pack");
    assert_eq!(key, "blobs/blobs.pack");
}

#[test]
fn s3_key_trims_every_trailing_slash() {
    assert_eq!(s3_key("a///", "x"), "a/x");
    assert_eq!(s3_key("///", "x"), "/x");
}

#[test]
fn relative_path_strips_prefix_directory() {
    assert_eq!(relative_path_of("cxdb/prod/", "cxdb/prod/registry/b.json"), "registry/b.json");
    assert_eq!(relative_path_of("", "registry/b.json"), "registry/b.json");
    assert_eq!(relative_path_of("other", "registry/b.json"), "registry/b.json");
}

#[test]
fn config_from_settings() {
    assert!(S3SyncConfig::from_settings(None, Some("b".into()), None, None, None).is_none());
    assert!(S3SyncConfig::from_settings(Some("yes".into()), Some("b".into()), None, None, None).is_none());
    assert!(S3SyncConfig::from_settings(Some("1".into()), None, None, None, None).is_none());
    let c = S3SyncConfig::from_settings(Some("TRUE".into()), Some("bucket".into()), None, None, Some("x".into()))
        .unwrap();
    assert_eq!(c.bucket, "bucket");
    assert_eq!(c.prefix, "");
    assert_eq!(c.region, "us-west-2");
    assert_eq!(c.sync_interval_secs, 60);
    assert!(c.enabled);
    let c = S3SyncConfig::from_settings(
        Some("1".into()),
        Some("b".into()),
        Some("p/".into()),
        Some("eu-west-1".into()),
        Some("15".into()),
    )
    .unwrap();
    assert_eq!(c.prefix, "p/");
    assert_eq!(c.region, "eu-west-1");
    assert_eq!(c.sync_interval_secs, 15);
}

#[test]
fn sync_state_records_and_decides() {
    let mut state = SyncState::default();
    assert_eq!(state.last_size("blobs/blobs.pack"), 0);
    assert!(state.needs_upload("blobs/blobs.pack", 10));
    assert!(!state.needs_upload("blobs/blobs.pack", 0));
    state.record_upload("blobs/blobs.pack", 12345);
    state.record_upload("turns/turns.log", 7);
    state.record_upload("blobs/blobs.pack", 20000);
    assert_eq!(state.file_sizes.len(), 2);
    assert_eq!(state.last_size("blobs/blobs.pack"), 20000);
    assert!(!state.needs_upload("blobs/blobs.pack", 20000));
    assert!(state.needs_upload("blobs/blobs.pack", 20001));
    assert!(state.registry_needs_upload("turns/turns.log", 6));
    assert!(!state.registry_needs_upload("turns/turns.log", 7));
    let m = S3Manifest::of_state(&state, 1700000000);
    assert_eq!(m.version, 1);
    assert_eq!(m.created_at, 1700000000);
    assert_eq!(m.files.len(), 2);
}
