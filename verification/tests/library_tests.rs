use hlusra::library::{
    meeting_dir_name, meeting_title, media_artifacts, plan_new_meeting, reconcile_chat_status,
    transcript_artifact, ArtifactKind, ChatStatus, LibraryFs, MediaStatus, PreparedRegistry,
    TranscriptionStatus, take_prepared, LibraryError, pending_migrations, chat_status_after_indexing,
};
use hlusra::ids::DateTimeFields;

#[test]
fn test_media_status_roundtrip() {
    assert_eq!(MediaStatus::from_str(MediaStatus::Present.as_str()), MediaStatus::Present);
    assert_eq!(MediaStatus::from_str(MediaStatus::Deleted.as_str()), MediaStatus::Deleted);
}

#[test]
fn statuses_roundtrip_and_unknown_names_default() {
    for s in [TranscriptionStatus::Pending, TranscriptionStatus::Processing, TranscriptionStatus::Done, TranscriptionStatus::Failed] {
        assert_eq!(TranscriptionStatus::from_str(s.as_str()), s);
    }
    for s in [ChatStatus::NotIndexed, ChatStatus::Indexing, ChatStatus::Ready, ChatStatus::Failed] {
        assert_eq!(ChatStatus::from_str(s.as_str()), s);
    }
    assert_eq!(ChatStatus::NotIndexed.as_str(), "not_indexed");
    assert_eq!(MediaStatus::from_str("bogus"), MediaStatus::Present);
    assert_eq!(TranscriptionStatus::from_str("bogus"), TranscriptionStatus::Pending);
    assert_eq!(ChatStatus::from_str("bogus"), ChatStatus::NotIndexed);
    assert_eq!(MediaStatus::default(), MediaStatus::Present);
    assert_eq!(ChatStatus::default(), ChatStatus::NotIndexed);
}

#[test]
fn test_artifact_kind_filenames() {
    assert_eq!(ArtifactKind::Recording.filename(), "recording.mkv");
    assert_eq!(ArtifactKind::Thumbnail.filename(), "thumbnail.jpg");
    assert_eq!(ArtifactKind::TranscriptJson.filename(), "transcript.json");
    assert_eq!(ArtifactKind::TranscriptTxt.filename(), "transcript.txt");
}

#[test]
fn artifact_paths_live_in_the_meeting_dir() {
    let fs = LibraryFs::new("/data/recordings".to_string());
    assert_eq!(fs.meeting_dir_path("2026-03-14_abc12345"), "/data/recordings/2026-03-14_abc12345");
    assert_eq!(
        fs.get_artifact_path("/data/recordings/m1", &ArtifactKind::TranscriptTxt),
        "/data/recordings/m1/transcript.txt"
    );
    assert!(!fs.has_artifact("/nonexistent/dir/for/sure", &ArtifactKind::Recording));
    assert_eq!(media_artifacts(), vec![ArtifactKind::Recording, ArtifactKind::Thumbnail]);
}

#[test]
fn transcript_json_is_preferred_over_text() {
    assert_eq!(transcript_artifact(true, true), Some(ArtifactKind::TranscriptJson));
    assert_eq!(transcript_artifact(false, true), Some(ArtifactKind::TranscriptTxt));
    assert_eq!(transcript_artifact(false, false), None);
}

#[test]
fn stale_ready_status_is_corrected() {
    assert_eq!(reconcile_chat_status(ChatStatus::Ready, false), (ChatStatus::NotIndexed, true));
    assert_eq!(reconcile_chat_status(ChatStatus::Ready, true), (ChatStatus::Ready, false));
    assert_eq!(reconcile_chat_status(ChatStatus::Indexing, false), (ChatStatus::Indexing, false));
}

#[test]
fn meeting_names_follow_the_date() {
    let f = DateTimeFields { year: 2026, month: 3, day: 14, hour: 9, minute: 5 };
    assert_eq!(meeting_dir_name(f, "abc123456789"), "2026-03-14_abc12345");
    assert_eq!(meeting_title(f), "Reunião 2026-03-14 09:05");
    let old = DateTimeFields { year: 33, month: 1, day: 2, hour: 0, minute: 0 };
    assert_eq!(meeting_dir_name(old, "abcdefgh"), "0033-01-02_abcdefgh");
    let far = DateTimeFields { year: 12345, month: 12, day: 31, hour: 23, minute: 59 };
    assert_eq!(meeting_title(far), "Reunião +12345-12-31 23:59");
    let bc = DateTimeFields { year: -1, month: 1, day: 1, hour: 0, minute: 0 };
    assert_eq!(meeting_dir_name(bc, "abcdefgh"), "-0001-01-01_abcdefgh");
}

#[test]
fn new_meetings_get_distinct_uuid_ids() {
    let a = plan_new_meeting();
    let b = plan_new_meeting();
    assert_ne!(a.id, b.id);
    assert_eq!(a.id.len(), 36);
    assert_eq!(&a.id[14..15], "4");
    assert!(a.dir_name.ends_with(&format!("_{}", &a.id[..8])));
    assert_eq!(a.dir_name.len(), 10 + 1 + 8);
}

#[test]
fn prepared_meeting_is_taken_once() {
    let mut reg = PreparedRegistry::new();
    reg.insert("m1".to_string(), "/rec/m1".to_string());
    reg.insert("m2".to_string(), "/rec/m2".to_string());
    reg.insert("m1".to_string(), "/rec/m1b".to_string());
    assert_eq!(reg.take("m1"), Some("/rec/m1b".to_string()));
    assert_eq!(reg.take("m1"), None);
    assert_eq!(reg.take("m3"), None);
    assert_eq!(reg.take("m2"), Some("/rec/m2".to_string()));
}

#[test]
fn take_prepared_reports_unknown_ids() {
    let mut reg = PreparedRegistry::new();
    reg.insert("m1".to_string(), "/rec/m1".to_string());
    reg.insert("m2".to_string(), "/rec/m2".to_string());
    assert_eq!(take_prepared(&mut reg, "m1").unwrap(), "/rec/m1");
    match take_prepared(&mut reg, "m1") {
        Err(e) => assert_eq!(e.message(), "Meeting not found: No prepared meeting with id m1"),
        Ok(_) => panic!("taken twice"),
    }
    assert_eq!(take_prepared(&mut reg, "m2").unwrap(), "/rec/m2");
}

#[test]
fn library_error_messages() {
    assert_eq!(LibraryError::Db("locked".to_string()).message(), "Database error: locked");
    assert_eq!(LibraryError::Io("denied".to_string()).message(), "IO error: denied");
    assert_eq!(LibraryError::Internal("lock poisoned".to_string()).message(), "Internal error: lock poisoned");
}

#[test]
fn migrations_above_the_stored_version_run_in_order() {
    assert_eq!(pending_migrations(0, 1), vec![0]);
    assert_eq!(pending_migrations(1, 1), Vec::<usize>::new());
    assert_eq!(pending_migrations(1, 4), vec![1, 2, 3]);
    assert_eq!(pending_migrations(7, 3), Vec::<usize>::new());
}

#[test]
fn chat_status_after_indexing_runs() {
    assert_eq!(chat_status_after_indexing(true), ChatStatus::Ready);
    assert_eq!(chat_status_after_indexing(false), ChatStatus::Failed);
}
