//! Sync state for file synchronization: the write barrier between the
//! upload task (local file to server) and the download task (server to
//! local file), with echo detection and the persisted sync-state record.

use vstd::prelude::*;

verus! {

/// A pending write from the server, the barrier between the two tasks.
///
/// When the server sends an edit it is written to the local file; the file
/// watcher would see that write and try to upload it back. The pending
/// write records what is being written so the echo can be dropped.
#[derive(Debug)]
pub struct PendingWrite {
    /// Unique token for this write operation
    pub write_id: u64,
    /// Content being written
    pub content: String,
    /// CID of the commit being written
    pub cid: Option<String>,
    /// When this write started, in milliseconds (for timeout detection)
    pub started_at: u64,
}

/// The hash recorded for a path, first match.
pub open spec fn spec_file_hash(files: Seq<(String, String)>, path: Seq<char>) -> Option<
    Seq<char>,
> {
    match spec_file_idx(files, path) {
        Some(i) => Some(files[i].1@),
        None => None,
    }
}

/// The position of the first record for a path.
pub open spec fn spec_file_idx(files: Seq<(String, String)>, path: Seq<char>) -> Option<int>
    decreases files.len(),
{
    if files.len() == 0 {
        None
    } else if files[0].0@ == path {
        Some(0)
    } else {
        match spec_file_idx(files.drop_first(), path) {
            Some(i) => Some(i + 1),
            None => None,
        }
    }
}

/// The first record for a path names it; everything before does not.
pub proof fn lemma_file_idx(files: Seq<(String, String)>, path: Seq<char>)
    ensures
        match spec_file_idx(files, path) {
            Some(i) => 0 <= i < files.len() && files[i].0@ == path && (forall|j: int|
                0 <= j < i ==> files[j].0@ != path),
            None => forall|j: int| 0 <= j < files.len() ==> files[j].0@ != path,
        },
    decreases files.len(),
{
    if files.len() > 0 && files[0].0@ != path {
        let d = files.drop_first();
        lemma_file_idx(d, path);
        assert(forall|j: int| 0 <= j < d.len() ==> d[j] == files[j + 1]);
        match spec_file_idx(d, path) {
            Some(i) => {
                assert forall|j: int| 0 <= j < i + 1 implies files[j].0@ != path by {
                    if j > 0 {
                        assert(d[j - 1] == files[j]);
                    }
                }
            },
            None => {
                assert forall|j: int| 0 <= j < files.len() implies files[j].0@ != path by {
                    if j > 0 {
                        assert(d[j - 1] == files[j]);
                    }
                }
            },
        }
    }
}

/// The persisted sync-state record: the last synced commit and a content
/// hash per synced file, for offline change detection.
#[derive(Debug)]
pub struct SyncStateFile {
    pub last_synced_cid: Option<String>,
    pub files: Vec<(String, String)>,
}

impl SyncStateFile {
    /// Paths are recorded once.
    pub open spec fn wf(self) -> bool {
        forall|i: int, j: int|
            0 <= i < j < self.files@.len() ==> self.files@[i].0@ != self.files@[j].0@
    }

    /// An empty record.
    pub fn new() -> (r: SyncStateFile)
        ensures
            r.wf(),
            r.last_synced_cid is None,
            r.files@.len() == 0,
    {
        SyncStateFile { last_synced_cid: None, files: Vec::new() }
    }

    /// Record the last synced commit.
    pub fn mark_synced(&mut self, cid: String)
        ensures
            final(self).last_synced_cid == Some(cid),
            final(self).files == old(self).files,
    {
        self.last_synced_cid = Some(cid);
    }

    /// Record the content hash of a synced file, replacing any earlier
    /// record for the same path.
    pub fn update_file(&mut self, relative_path: &str, content_hash: String)
        requires
            old(self).wf(),
        ensures
            final(self).wf(),
            final(self).last_synced_cid == old(self).last_synced_cid,
            spec_file_hash(final(self).files@, relative_path@) == Some(content_hash@),
            forall|other: Seq<char>|
                other != relative_path@ ==> spec_file_hash(final(self).files@, other)
                    == spec_file_hash(old(self).files@, other),
    {
        let ghost before = self.files@;
        let mut k: usize = 0;
        loop
            invariant_except_break
                k <= self.files@.len(),
                self.files@ == before,
                before == old(self).files@,
                old(self).wf(),
                self.last_synced_cid == old(self).last_synced_cid,
                forall|j: int| 0 <= j < k ==> self.files@[j].0@ != relative_path@,
            ensures
                self.wf(),
                self.last_synced_cid == old(self).last_synced_cid,
                forall|other: Seq<char>|
                    spec_file_hash(self.files@, other) == (if other == relative_path@ {
                        None::<Seq<char>>
                    } else {
                        spec_file_hash(before, other)
                    }),
            decreases self.files@.len() - k,
        {
            if k >= self.files.len() {
                proof {
                    lemma_file_idx(before, relative_path@);
                    assert forall|other: Seq<char>| true implies spec_file_hash(
                        self.files@,
                        other,
                    ) == (if other == relative_path@ {
                        None::<Seq<char>>
                    } else {
                        spec_file_hash(before, other)
                    }) by {
                        if other == relative_path@ {
                            lemma_file_idx(before, other);
                            match spec_file_idx(before, other) {
                                Some(i) => {
                                    assert(before[i].0@ == other);
                                },
                                None => {},
                            }
                        }
                    }
                }
                break;
            }
            if crate::text::str_eq(self.files[k].0.as_str(), relative_path) {
                self.files.remove(k);
                proof {
                    let after = self.files@;
                    assert(after =~= before.remove(k as int));
                    assert forall|other: Seq<char>| true implies spec_file_hash(after, other)
                        == (if other == relative_path@ {
                        None::<Seq<char>>
                    } else {
                        spec_file_hash(before, other)
                    }) by {
                        lemma_file_idx_remove(before, k as int, other);
                        lemma_file_idx(before, other);
                    }
                    assert forall|i: int, j: int|
                        0 <= i < j < after.len() implies after[i].0@ != after[j].0@ by {
                        let bi: int = if i < k {
                            i
                        } else {
                            i + 1
                        };
                        let bj: int = if j < k {
                            j
                        } else {
                            j + 1
                        };
                        assert(after[i] == before[bi] && after[j] == before[bj]);
                    }
                }
                break;
            }
            k = k + 1;
        }
        let ghost mid = self.files@;
        let pair = (String::from_str(relative_path), content_hash);
        let ghost p = pair;
        self.files.push(pair);
        proof {
            assert(self.files@ =~= mid.push(p));
            assert forall|other: Seq<char>| true implies spec_file_hash(mid.push(p), other) == (
            if other == relative_path@ {
                Some(p.1@)
            } else {
                spec_file_hash(mid, other)
            }) by {
                lemma_file_idx_push(mid, p, other);
                lemma_file_idx(mid, other);
                lemma_file_idx(mid.push(p), other);
            }
            lemma_file_idx(mid, relative_path@);
            let after = self.files@;
            assert forall|i: int, j: int|
                0 <= i < j < after.len() implies after[i].0@ != after[j].0@ by {
                if j == mid.len() {
                    assert(after[i] == mid[i]);
                    assert(after[j] == p);
                    lemma_file_idx(mid, relative_path@);
                    match spec_file_idx(mid, relative_path@) {
                        Some(ii) => {
                            assert(mid[ii].0@ == relative_path@);
                        },
                        None => {},
                    }
                }
            }
        }
    }
}

/// How the first record for a path moves when one record is appended.
proof fn lemma_file_idx_push(s: Seq<(String, String)>, p: (String, String), path: Seq<char>)
    ensures
        spec_file_idx(s.push(p), path) == (match spec_file_idx(s, path) {
            Some(i) => Some(i),
            None => if p.0@ == path {
                Some(s.len() as int)
            } else {
                None::<int>
            },
        }),
    decreases s.len(),
{
    if s.len() == 0 {
        assert(s.push(p)[0] == p);
        assert(s.push(p).drop_first() =~= Seq::<(String, String)>::empty());
        assert(spec_file_idx(Seq::<(String, String)>::empty(), path) is None);
        assert(spec_file_idx(s, path) is None);
    } else {
        assert(s.push(p)[0] == s[0]);
        assert(s.push(p).drop_first() =~= s.drop_first().push(p));
        lemma_file_idx_push(s.drop_first(), p, path);
        if s[0].0@ != path {
            assert(spec_file_idx(s.push(p), path) == (match spec_file_idx(
                s.drop_first().push(p),
                path,
            ) {
                Some(i) => Some(i + 1),
                None => None::<int>,
            }));
        }
    }
}

/// How the first record for a path moves when the record at `k` leaves,
/// for a record list with distinct paths.
proof fn lemma_file_idx_remove(s: Seq<(String, String)>, k: int, path: Seq<char>)
    requires
        0 <= k < s.len(),
        forall|i: int, j: int| 0 <= i < j < s.len() ==> s[i].0@ != s[j].0@,
        s[k].0@ == path || s[k].0@ != path,
    ensures
        s[k].0@ == path ==> spec_file_idx(s.remove(k), path) is None,
        s[k].0@ != path ==> (match spec_file_idx(s.remove(k), path) {
            Some(i) => spec_file_idx(s, path) matches Some(i0) && s.remove(k)[i].1 == s[i0].1,
            None => spec_file_idx(s, path) is None,
        }),
    decreases s.len(),
{
    lemma_file_idx(s, path);
    let r = s.remove(k);
    lemma_file_idx(r, path);
    match spec_file_idx(r, path) {
        Some(i) => {
            let iorig: int = if i < k {
                i
            } else {
                i + 1
            };
            assert(r[i] == s[iorig]);
            assert(s[iorig].0@ == path);
            assert(iorig != k);
            assert(s[k].0@ != path);
            match spec_file_idx(s, path) {
                Some(i0) => {
                    assert(s[i0].0@ == path);
                    assert(i0 == iorig);
                },
                None => {
                    assert(false);
                },
            }
        },
        None => {
            match spec_file_idx(s, path) {
                Some(i0) => {
                    if s[k].0@ != path {
                        assert(i0 != k);
                        let i2: int = if i0 < k {
                            i0
                        } else {
                            i0 - 1
                        };
                        assert(r[i2] == s[i0]);
                        assert(r[i2].0@ == path);
                        assert(false);
                    }
                },
                None => {},
            }
        },
    }
}

/// What the uploader does with a file-change signal, checked against the
/// write barrier.
#[derive(Debug, Clone, Copy, PartialEq, Eq, Structural)]
pub enum UploadAction {
    /// The change is the echo of a pending server write: drop it
    Echo,
    /// Another server write is in flight: defer, and refresh the head first
    Defer,
    /// No barrier is up: upload the change
    Proceed,
}

/// Shared state between the upload task and the download task.
///
/// The download task installs a pending write before touching the local
/// file; the upload task holds every file-change signal against it. A
/// signal matching the pending content is an echo and is dropped.
#[derive(Debug)]
pub struct SyncState {
    /// CID of the commit last written to the local file
    pub last_written_cid: Option<String>,
    /// Content last written to the local file (for echo detection)
    pub last_written_content: String,
    /// Monotonic counter for write operations
    pub current_write_id: u64,
    /// Currently pending server write; the barrier is up when `Some`
    pub pending_write: Option<PendingWrite>,
    /// A server edit was deferred while the barrier was up; the uploader
    /// must refresh the head before acting on the pending signal
    pub needs_head_refresh: bool,
    /// Persistent record for offline change detection (file mode only)
    pub state_file: Option<SyncStateFile>,
    /// Where the record is persisted
    pub state_file_path: Option<String>,
}

impl SyncState {
    /// Create a new sync state with default values.
    pub fn new() -> (r: SyncState)
        ensures
            r.last_written_cid is None,
            r.last_written_content@ == Seq::<char>::empty(),
            r.current_write_id == 0,
            r.pending_write is None,
            !r.needs_head_refresh,
            r.state_file is None,
            r.state_file_path is None,
    {
        SyncState {
            last_written_cid: None,
            last_written_content: String::new(),
            current_write_id: 0,
            pending_write: None,
            needs_head_refresh: false,
            state_file: None,
            state_file_path: None,
        }
    }

    /// Create a sync state resuming from a persisted record.
    pub fn with_state_file(state_file: SyncStateFile, state_file_path: String) -> (r: SyncState)
        ensures
            r.last_written_cid == state_file.last_synced_cid,
            r.last_written_content@ == Seq::<char>::empty(),
            r.current_write_id == 0,
            r.pending_write is None,
            !r.needs_head_refresh,
            r.state_file == Some(state_file),
            r.state_file_path == Some(state_file_path),
    {
        let cid = match &state_file.last_synced_cid {
            Some(c) => Some(c.clone()),
            None => None,
        };
        SyncState {
            last_written_cid: cid,
            last_written_content: String::new(),
            current_write_id: 0,
            pending_write: None,
            needs_head_refresh: false,
            state_file: Some(state_file),
            state_file_path: Some(state_file_path),
        }
    }

    /// Record a successful sync in the persisted record. The caller saves
    /// the record to disk afterwards.
    pub fn mark_synced(&mut self, cid: &str, content_hash: &str, relative_path: &str)
        requires
            old(self).state_file matches Some(f) ==> f.wf(),
        ensures
            match old(self).state_file {
                None => *final(self) == *old(self),
                Some(f) => {
                    &&& (final(self).state_file matches Some(nf) && nf.wf() && (
                    nf.last_synced_cid matches Some(c) && c@ == cid@) && spec_file_hash(
                        nf.files@,
                        relative_path@,
                    ) == Some(content_hash@))
                    &&& final(self).last_written_cid == old(self).last_written_cid
                    &&& final(self).pending_write == old(self).pending_write
                    &&& final(self).current_write_id == old(self).current_write_id
                },
            },
    {
        match &mut self.state_file {
            Some(f) => {
                f.mark_synced(String::from_str(cid));
                f.update_file(relative_path, String::from_str(content_hash));
            },
            None => {},
        }
    }

    /// Install the barrier for a server write and take a fresh write id.
    pub fn begin_server_write(&mut self, content: String, cid: Option<String>, now_ms: u64)
        -> (r: u64)
        requires
            old(self).current_write_id < u64::MAX,
        ensures
            r == old(self).current_write_id + 1,
            final(self).current_write_id == r,
            final(self).pending_write matches Some(p) && p.write_id == r && p.content == content
                && p.cid == cid && p.started_at == now_ms,
            final(self).last_written_cid == old(self).last_written_cid,
            final(self).last_written_content == old(self).last_written_content,
            final(self).needs_head_refresh == old(self).needs_head_refresh,
            final(self).state_file == old(self).state_file,
    {
        self.current_write_id = self.current_write_id + 1;
        let id = self.current_write_id;
        self.pending_write = Some(
            PendingWrite { write_id: id, content, cid, started_at: now_ms },
        );
        id
    }

    /// Hold a file-change signal against the barrier. A signal carrying
    /// exactly the pending content is the echo of the server write and is
    /// dropped without any state change; any other signal while the
    /// barrier is up is deferred and flags a head refresh; with the
    /// barrier down the signal proceeds as a genuine local edit.
    pub fn on_file_change(&mut self, content: &str) -> (r: UploadAction)
        ensures
            match old(self).pending_write {
                Some(p) => if p.content@ == content@ {
                    r == UploadAction::Echo && *final(self) == *old(self)
                } else {
                    r == UploadAction::Defer && final(self).needs_head_refresh && *final(self)
                        == SyncState { needs_head_refresh: true, ..*old(self) }
                },
                None => r == UploadAction::Proceed && *final(self) == *old(self),
            },
    {
        match &self.pending_write {
            Some(p) => {
                if crate::text::str_eq(p.content.as_str(), content) {
                    UploadAction::Echo
                } else {
                    self.needs_head_refresh = true;
                    UploadAction::Defer
                }
            },
            None => UploadAction::Proceed,
        }
    }

    /// Clear the barrier after the file write completed, recording what
    /// was written. A completion for a superseded write id is ignored.
    pub fn complete_server_write(&mut self, write_id: u64)
        ensures
            match old(self).pending_write {
                Some(p) => if p.write_id == write_id {
                    &&& final(self).pending_write is None
                    &&& final(self).last_written_content == p.content
                    &&& final(self).last_written_cid == p.cid
                    &&& final(self).current_write_id == old(self).current_write_id
                    &&& final(self).needs_head_refresh == old(self).needs_head_refresh
                    &&& final(self).state_file == old(self).state_file
                } else {
                    *final(self) == *old(self)
                },
                None => *final(self) == *old(self),
            },
    {
        let take = match &self.pending_write {
            Some(p) => p.write_id == write_id,
            None => false,
        };
        if take {
            let p = self.pending_write.take().unwrap();
            self.last_written_content = p.content;
            self.last_written_cid = p.cid;
        }
    }

    /// Discard a pending write older than the timeout: the barrier fails
    /// open rather than blocking uploads forever.
    pub fn expire_stale_pending(&mut self, now_ms: u64, timeout_ms: u64)
        ensures
            match old(self).pending_write {
                Some(p) => if now_ms >= p.started_at && now_ms - p.started_at > timeout_ms {
                    *final(self) == SyncState { pending_write: None, ..*old(self) }
                } else {
                    *final(self) == *old(self)
                },
                None => *final(self) == *old(self),
            },
    {
        let stale = match &self.pending_write {
            Some(p) => now_ms >= p.started_at && now_ms - p.started_at > timeout_ms,
            None => false,
        };
        if stale {
            self.pending_write = None;
        }
    }
}

}
