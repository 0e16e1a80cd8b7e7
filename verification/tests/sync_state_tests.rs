//! Write-barrier tests between the upload and download tasks.

use commonplace_doc::sync_state::{SyncState, SyncStateFile, UploadAction};

/// The echo-drop scenario: the downloader installs a pending write with
/// content X; the uploader, observing X, drops the upload and leaves the
/// state untouched.
#[test]
fn test_barrier_drops_echo() {
    let mut state = SyncState::new();
    let write_id = state.begin_server_write("X".to_string(), Some("cid-1".to_string()), 100);

    assert_eq!(state.on_file_change("X"), UploadAction::Echo);
    assert!(state.pending_write.is_some(), "the barrier stays up");
    assert!(!state.needs_head_refresh);

    state.complete_server_write(write_id);
    assert!(state.pending_write.is_none());
    assert_eq!(state.last_written_content, "X");
    assert_eq!(state.last_written_cid, Some("cid-1".to_string()));
}

#[test]
fn test_barrier_defers_foreign_change() {
    let mut state = SyncState::new();
    let _ = state.begin_server_write("X".to_string(), None, 100);

    assert_eq!(state.on_file_change("Y"), UploadAction::Defer);
    assert!(
        state.needs_head_refresh,
        "a deferred change forces a head refresh"
    );
}

#[test]
fn test_no_barrier_proceeds() {
    let mut state = SyncState::new();
    assert_eq!(state.on_file_change("anything"), UploadAction::Proceed);
}

#[test]
fn test_superseded_completion_is_ignored() {
    let mut state = SyncState::new();
    let first = state.begin_server_write("X".to_string(), None, 100);
    let second = state.begin_server_write("Y".to_string(), None, 200);
    assert_ne!(first, second);

    state.complete_server_write(first);
    assert!(
        state.pending_write.is_some(),
        "an old write id does not clear the barrier"
    );
    state.complete_server_write(second);
    assert!(state.pending_write.is_none());
    assert_eq!(state.last_written_content, "Y");
}

#[test]
fn test_stale_pending_fails_open() {
    let mut state = SyncState::new();
    let _ = state.begin_server_write("X".to_string(), None, 100);
    state.expire_stale_pending(4_000, 5_000);
    assert!(state.pending_write.is_some(), "not stale yet");
    state.expire_stale_pending(6_000, 5_000);
    assert!(state.pending_write.is_none(), "the barrier fails open");
}

#[test]
fn test_with_state_file_resumes_cid() {
    let mut file = SyncStateFile::new();
    file.mark_synced("cid-9".to_string());
    let state = SyncState::with_state_file(file, "/tmp/state.json".to_string());
    assert_eq!(state.last_written_cid, Some("cid-9".to_string()));
    assert_eq!(state.current_write_id, 0);
}

#[test]
fn test_mark_synced_updates_record() {
    let mut state = SyncState::with_state_file(SyncStateFile::new(), "p".to_string());
    state.mark_synced("cid-2", "hash-a", "notes.txt");
    state.mark_synced("cid-3", "hash-b", "notes.txt");

    let file = state.state_file.as_ref().unwrap();
    assert_eq!(file.last_synced_cid, Some("cid-3".to_string()));
    let entry = file
        .files
        .iter()
        .find(|(p, _)| p == "notes.txt")
        .expect("record for the path");
    assert_eq!(entry.1, "hash-b", "the newer hash replaced the older");
    assert_eq!(
        file.files.iter().filter(|(p, _)| p == "notes.txt").count(),
        1
    );
}
