//! The meeting library's own logic: statuses and their stored names, artifact
//! files, directory and title naming, and the registry of meetings that are
//! being recorded but not yet stored.
use vstd::prelude::*;
use vstd::string::*;
use crate::ids::{self, format_date, format_date_minute, new_uuid_v4, now_utc, DateTimeFields};
use crate::text::{self, chars_of, join_path, owned, push_char};

verus! {

/// Whether a meeting's media files are still on disk.
#[derive(Clone, Copy, Debug, PartialEq, Eq, Structural)]
pub enum MediaStatus {
    Present,
    Deleted,
}

/// Progress of a meeting's transcription.
#[derive(Clone, Copy, Debug, PartialEq, Eq, Structural)]
pub enum TranscriptionStatus {
    Pending,
    Processing,
    Done,
    Failed,
}

/// Progress of indexing a meeting for chat.
#[derive(Clone, Copy, Debug, PartialEq, Eq, Structural)]
pub enum ChatStatus {
    NotIndexed,
    Indexing,
    Ready,
    Failed,
}

/// What deleting a meeting removes.
#[derive(Clone, Copy, Debug, PartialEq, Eq, Structural)]
pub enum DeleteMode {
    Everything,
    MediaOnly,
}

/// The files a meeting directory can hold.
#[derive(Clone, Copy, Debug, PartialEq, Eq, Structural)]
pub enum ArtifactKind {
    Recording,
    Thumbnail,
    TranscriptJson,
    TranscriptTxt,
}

/// One audio track of a recording.
#[derive(Debug)]
pub struct TrackInfo {
    pub index: usize,
    pub label: String,
    pub codec: String,
}

/// A meeting whose directory exists but which is not stored yet.
#[derive(Debug)]
pub struct PreparedMeeting {
    pub id: String,
    pub dir_path: String,
}

/// File name of an artifact.
pub open spec fn artifact_file(k: ArtifactKind) -> Seq<char> {
    match k {
        ArtifactKind::Recording => "recording.mkv"@,
        ArtifactKind::Thumbnail => "thumbnail.jpg"@,
        ArtifactKind::TranscriptJson => "transcript.json"@,
        ArtifactKind::TranscriptTxt => "transcript.txt"@,
    }
}

impl ArtifactKind {
    /// File name of the artifact inside a meeting directory.
    pub fn filename(&self) -> (s: &'static str)
        ensures
            s@ == artifact_file(*self),
    {
        match self {
            ArtifactKind::Recording => "recording.mkv",
            ArtifactKind::Thumbnail => "thumbnail.jpg",
            ArtifactKind::TranscriptJson => "transcript.json",
            ArtifactKind::TranscriptTxt => "transcript.txt",
        }
    }
}

/// Stored name of a media status.
pub open spec fn media_name(s: MediaStatus) -> Seq<char> {
    match s {
        MediaStatus::Present => "present"@,
        MediaStatus::Deleted => "deleted"@,
    }
}

/// Stored name of a transcription status.
pub open spec fn transcription_name(s: TranscriptionStatus) -> Seq<char> {
    match s {
        TranscriptionStatus::Pending => "pending"@,
        TranscriptionStatus::Processing => "processing"@,
        TranscriptionStatus::Done => "done"@,
        TranscriptionStatus::Failed => "failed"@,
    }
}

/// Stored name of a chat status.
pub open spec fn chat_name(s: ChatStatus) -> Seq<char> {
    match s {
        ChatStatus::NotIndexed => "not_indexed"@,
        ChatStatus::Indexing => "indexing"@,
        ChatStatus::Ready => "ready"@,
        ChatStatus::Failed => "failed"@,
    }
}

/// The media status a stored name denotes; unknown names read as `Present`.
pub open spec fn media_from_name(s: Seq<char>) -> MediaStatus {
    if s == "deleted"@ {
        MediaStatus::Deleted
    } else {
        MediaStatus::Present
    }
}

/// The transcription status a stored name denotes; unknown names read as `Pending`.
pub open spec fn transcription_from_name(s: Seq<char>) -> TranscriptionStatus {
    if s == "processing"@ {
        TranscriptionStatus::Processing
    } else if s == "done"@ {
        TranscriptionStatus::Done
    } else if s == "failed"@ {
        TranscriptionStatus::Failed
    } else {
        TranscriptionStatus::Pending
    }
}

/// The chat status a stored name denotes; unknown names read as `NotIndexed`.
pub open spec fn chat_from_name(s: Seq<char>) -> ChatStatus {
    if s == "indexing"@ {
        ChatStatus::Indexing
    } else if s == "ready"@ {
        ChatStatus::Ready
    } else if s == "failed"@ {
        ChatStatus::Failed
    } else {
        ChatStatus::NotIndexed
    }
}

fn same(a: &str, b: &str) -> (r: bool)
    ensures
        r == (a@ == b@),
{
    owned(a) == owned(b)
}

impl MediaStatus {
    /// Stored name of the status.
    pub fn as_str(&self) -> (s: &'static str)
        ensures
            s@ == media_name(*self),
    {
        match self {
            MediaStatus::Present => "present",
            MediaStatus::Deleted => "deleted",
        }
    }

    /// Reads a stored name; an unknown name reads as `Present`.
    pub fn from_str(s: &str) -> (r: MediaStatus)
        ensures
            r == media_from_name(s@),
    {
        if same(s, "deleted") {
            MediaStatus::Deleted
        } else {
            MediaStatus::Present
        }
    }
}

impl TranscriptionStatus {
    /// Stored name of the status.
    pub fn as_str(&self) -> (s: &'static str)
        ensures
            s@ == transcription_name(*self),
    {
        match self {
            TranscriptionStatus::Pending => "pending",
            TranscriptionStatus::Processing => "processing",
            TranscriptionStatus::Done => "done",
            TranscriptionStatus::Failed => "failed",
        }
    }

    /// Reads a stored name; an unknown name reads as `Pending`.
    pub fn from_str(s: &str) -> (r: TranscriptionStatus)
        ensures
            r == transcription_from_name(s@),
    {
        if same(s, "processing") {
            TranscriptionStatus::Processing
        } else if same(s, "done") {
            TranscriptionStatus::Done
        } else if same(s, "failed") {
            TranscriptionStatus::Failed
        } else {
            TranscriptionStatus::Pending
        }
    }
}

impl ChatStatus {
    /// Stored name of the status.
    pub fn as_str(&self) -> (s: &'static str)
        ensures
            s@ == chat_name(*self),
    {
        match self {
            ChatStatus::NotIndexed => "not_indexed",
            ChatStatus::Indexing => "indexing",
            ChatStatus::Ready => "ready",
            ChatStatus::Failed => "failed",
        }
    }

    /// Reads a stored name; an unknown name reads as `NotIndexed`.
    pub fn from_str(s: &str) -> (r: ChatStatus)
        ensures
            r == chat_from_name(s@),
    {
        if same(s, "indexing") {
            ChatStatus::Indexing
        } else if same(s, "ready") {
            ChatStatus::Ready
        } else if same(s, "failed") {
            ChatStatus::Failed
        } else {
            ChatStatus::NotIndexed
        }
    }
}

impl Default for MediaStatus {
    fn default() -> (s: Self)
        ensures
            s == MediaStatus::Present,
    {
        MediaStatus::Present
    }
}

impl Default for TranscriptionStatus {
    fn default() -> (s: Self)
        ensures
            s == TranscriptionStatus::Pending,
    {
        TranscriptionStatus::Pending
    }
}

impl Default for ChatStatus {
    fn default() -> (s: Self)
        ensures
            s == ChatStatus::NotIndexed,
    {
        ChatStatus::NotIndexed
    }
}

/// Every status reads back from its stored name, so storing and loading a
/// meeting keeps its statuses.
pub proof fn lemma_status_names_roundtrip(m: MediaStatus, t: TranscriptionStatus, c: ChatStatus)
    ensures
        media_from_name(media_name(m)) == m,
        transcription_from_name(transcription_name(t)) == t,
        chat_from_name(chat_name(c)) == c,
{
    reveal_strlit("present");
    reveal_strlit("deleted");
    reveal_strlit("pending");
    reveal_strlit("processing");
    reveal_strlit("done");
    reveal_strlit("failed");
    reveal_strlit("not_indexed");
    reveal_strlit("indexing");
    reveal_strlit("ready");
    assert("present"@[0] != "deleted"@[0]);
    assert("pending"@.len() != "processing"@.len());
    assert("pending"@.len() != "done"@.len());
    assert("pending"@.len() != "failed"@.len());
    assert("processing"@.len() != "done"@.len());
    assert("processing"@.len() != "failed"@.len());
    assert("done"@.len() != "failed"@.len());
    assert("not_indexed"@.len() != "indexing"@.len());
    assert("not_indexed"@.len() != "ready"@.len());
    assert("not_indexed"@.len() != "failed"@.len());
    assert("indexing"@.len() != "ready"@.len());
    assert("indexing"@.len() != "failed"@.len());
    assert("ready"@.len() != "failed"@.len());
}

// ---------------------------------------------------------------------------
// Files of the library
// ---------------------------------------------------------------------------

/// Whether something exists at `path`.
/// Trusted: `Path::exists`; the answer depends on the disk and is left open.
#[verifier::external_body]
pub fn path_exists(path: &str) -> bool {
    std::path::Path::new(path).exists()
}

/// The directory that holds one directory per meeting.
#[derive(Debug)]
pub struct LibraryFs {
    pub base_dir: String,
}

impl LibraryFs {
    /// A library rooted at `base_dir` (the caller creates the directory).
    pub fn new(base_dir: String) -> (fs: Self)
        ensures
            fs.base_dir == base_dir,
    {
        LibraryFs { base_dir }
    }

    /// Path of the directory named `dir_name` inside the library.
    pub fn meeting_dir_path(&self, dir_name: &str) -> (p: String)
        ensures
            p@ == text::path_join(self.base_dir@, dir_name@),
    {
        join_path(self.base_dir.as_str(), dir_name)
    }

    /// Path of an artifact inside a meeting directory.
    pub fn get_artifact_path(&self, meeting_dir: &str, kind: &ArtifactKind) -> (p: String)
        ensures
            p@ == text::path_join(meeting_dir@, artifact_file(*kind)),
    {
        join_path(meeting_dir, kind.filename())
    }

    /// Whether the artifact's file exists (a question to the disk).
    pub fn has_artifact(&self, meeting_dir: &str, kind: &ArtifactKind) -> bool {
        let p = self.get_artifact_path(meeting_dir, kind);
        path_exists(p.as_str())
    }
}

/// The artifacts that deleting only the media removes.
pub fn media_artifacts() -> (v: Vec<ArtifactKind>)
    ensures
        v@ == seq![ArtifactKind::Recording, ArtifactKind::Thumbnail],
{
    let mut v = Vec::new();
    v.push(ArtifactKind::Recording);
    v.push(ArtifactKind::Thumbnail);
    v
}

/// Which transcript a meeting's detail shows: the JSON one when it exists,
/// otherwise the plain text one, otherwise none.
pub fn transcript_artifact(has_json: bool, has_txt: bool) -> (k: Option<ArtifactKind>)
    ensures
        has_json ==> k == Some(ArtifactKind::TranscriptJson),
        !has_json && has_txt ==> k == Some(ArtifactKind::TranscriptTxt),
        !has_json && !has_txt ==> k is None,
{
    if has_json {
        Some(ArtifactKind::TranscriptJson)
    } else if has_txt {
        Some(ArtifactKind::TranscriptTxt)
    } else {
        None
    }
}

/// The chat status to report: a meeting marked `Ready` whose chunks are gone
/// is really `NotIndexed`.
pub open spec fn reconciled_chat(stored: ChatStatus, indexed: bool) -> ChatStatus {
    if stored == ChatStatus::Ready && !indexed {
        ChatStatus::NotIndexed
    } else {
        stored
    }
}

/// Cross-checks a stored chat status against the vector store; the second
/// result says whether the stored status must be corrected.
pub fn reconcile_chat_status(stored: ChatStatus, indexed: bool) -> (r: (ChatStatus, bool))
    ensures
        r.0 == reconciled_chat(stored, indexed),
        r.1 == (r.0 != stored),
{
    match stored {
        ChatStatus::Ready => {
            if indexed {
                (stored, false)
            } else {
                (ChatStatus::NotIndexed, true)
            }
        },
        _ => (stored, false),
    }
}

// ---------------------------------------------------------------------------
// Naming new meetings
// ---------------------------------------------------------------------------

/// `<date>_<first 8 characters of the id>`.
pub open spec fn meeting_dir_name_spec(f: DateTimeFields, id: Seq<char>) -> Seq<char> {
    ids::date_text(f) + seq!['_'] + id.take(8)
}

/// `Reunião <date> <hh:mm>`.
pub open spec fn meeting_title_spec(f: DateTimeFields) -> Seq<char> {
    "Reunião "@ + ids::date_minute_text(f)
}

/// A new meeting's identity: a random id, the creation time, and the name of
/// its directory.
#[derive(Debug)]
pub struct NewMeeting {
    pub id: String,
    pub created: DateTimeFields,
    pub dir_name: String,
}

/// The name of the directory of a meeting created at `created` with id `id`.
pub fn meeting_dir_name(created: DateTimeFields, id: &str) -> (s: String)
    requires
        id@.len() >= 8,
    ensures
        s@ == meeting_dir_name_spec(created, id@),
{
    let mut s = format_date(created);
    push_char(&mut s, '_');
    let cs = chars_of(id);
    let mut i: usize = 0;
    while i < 8
        invariant
            cs@ == id@,
            cs@.len() >= 8,
            i <= 8,
            s@ == ids::date_text(created) + seq!['_'] + id@.take(i as int),
        decreases 8 - i,
    {
        push_char(&mut s, cs[i]);
        assert(id@.take(i + 1) =~= id@.take(i as int).push(id@[i as int]));
        i += 1;
    }
    s
}

/// The title a meeting gets when it is stored.
pub fn meeting_title(created: DateTimeFields) -> (s: String)
    ensures
        s@ == meeting_title_spec(created),
{
    let mut s = owned("Reunião ");
    let d = format_date_minute(created);
    s.append(d.as_str());
    s
}

/// Picks the identity of a meeting about to be recorded: a fresh random id,
/// the current time, and the directory name derived from both.
pub fn plan_new_meeting() -> (m: NewMeeting)
    ensures
        ids::is_uuid_v4_text(m.id@),
        ids::fields_in_range(m.created),
        m.dir_name@ == meeting_dir_name_spec(m.created, m.id@),
{
    let id = new_uuid_v4();
    let created = now_utc();
    let dir_name = meeting_dir_name(created, id.as_str());
    NewMeeting { id, created, dir_name }
}

// ---------------------------------------------------------------------------
// Prepared meetings
// ---------------------------------------------------------------------------

/// Whether some entry has key `k`.
pub open spec fn has_key(s: Seq<(Seq<char>, Seq<char>)>, k: Seq<char>) -> bool {
    exists|i: int| 0 <= i < s.len() && #[trigger] s[i].0 == k
}

/// The value stored under `k`, if any.
pub open spec fn lookup(s: Seq<(Seq<char>, Seq<char>)>, k: Seq<char>) -> Option<Seq<char>> {
    if has_key(s, k) {
        Some(s[choose|i: int| 0 <= i < s.len() && #[trigger] s[i].0 == k].1)
    } else {
        None
    }
}

/// No key occurs twice.
pub open spec fn keys_distinct(s: Seq<(Seq<char>, Seq<char>)>) -> bool {
    forall|i: int, j: int| 0 <= i < s.len() && 0 <= j < s.len() && i != j ==> #[trigger] s[i].0 != #[trigger] s[j].0
}

proof fn lemma_lookup_at(s: Seq<(Seq<char>, Seq<char>)>, i: int)
    requires
        keys_distinct(s),
        0 <= i < s.len(),
    ensures
        lookup(s, s[i].0) == Some(s[i].1),
{
    let k = s[i].0;
    assert(has_key(s, k));
    let j = choose|j: int| 0 <= j < s.len() && #[trigger] s[j].0 == k;
    if j != i {
        assert(s[i].0 != s[j].0);
    }
}

/// The directories of meetings that are being recorded, by meeting id.
pub struct PreparedRegistry {
    entries: Vec<(String, String)>,
}

impl PreparedRegistry {
    /// The entries as (id, directory) pairs.
    pub closed spec fn pairs(&self) -> Seq<(Seq<char>, Seq<char>)> {
        self.entries@.map_values(|e: (String, String)| (e.0@, e.1@))
    }

    /// The directory registered for `id`, if any.
    pub open spec fn dir_of(&self, id: Seq<char>) -> Option<Seq<char>> {
        lookup(self.pairs(), id)
    }

    /// The registry's invariant: one entry per id.
    pub open spec fn wf(&self) -> bool {
        keys_distinct(self.pairs())
    }

    /// An empty registry.
    pub fn new() -> (r: Self)
        ensures
            r.wf(),
            forall|id: Seq<char>| r.dir_of(id) is None,
    {
        let r = PreparedRegistry { entries: Vec::new() };
        assert(r.pairs() =~= Seq::<(Seq<char>, Seq<char>)>::empty());
        r
    }

    fn find(&self, id: &str) -> (r: Option<usize>)
        ensures
            r matches Some(i) ==> i < self.pairs().len() && self.pairs()[i as int].0 == id@,
            r is None ==> !has_key(self.pairs(), id@),
    {
        let n = self.entries.len();
        let mut i: usize = 0;
        while i < n
            invariant
                n == self.entries.len(),
                i <= n,
                forall|j: int| 0 <= j < i ==> self.pairs()[j].0 != id@,
            decreases n - i,
        {
            if self.entries[i].0 == owned(id) {
                return Some(i);
            }
            i += 1;
        }
        None
    }

    /// Registers `dir_path` as the directory of meeting `id`, replacing any
    /// earlier directory of that id.
    pub fn insert(&mut self, id: String, dir_path: String)
        requires
            old(self).wf(),
        ensures
            final(self).wf(),
            final(self).dir_of(id@) == Some(dir_path@),
            forall|k: Seq<char>| k != id@ ==> final(self).dir_of(k) == old(self).dir_of(k),
    {
        let ghost old_pairs = self.pairs();
        let ghost key = id@;
        let ghost val = dir_path@;
        match self.find(id.as_str()) {
            Some(i) => {
                self.entries.set(i, (id, dir_path));
                proof {
                    let p = self.pairs();
                    assert(p =~= old_pairs.update(i as int, (key, val)));
                    assert(keys_distinct(p));
                    lemma_lookup_at(p, i as int);
                    assert forall|k: Seq<char>| k != key implies lookup(p, k) == lookup(old_pairs, k) by {
                        if has_key(old_pairs, k) {
                            let j = choose|j: int| 0 <= j < old_pairs.len() && #[trigger] old_pairs[j].0 == k;
                            lemma_lookup_at(old_pairs, j);
                            assert(p[j] == old_pairs[j]);
                            lemma_lookup_at(p, j);
                        } else {
                            if has_key(p, k) {
                                let j = choose|j: int| 0 <= j < p.len() && #[trigger] p[j].0 == k;
                                assert(old_pairs[j].0 == k);
                            }
                        }
                    }
                }
            },
            None => {
                self.entries.push((id, dir_path));
                proof {
                    let p = self.pairs();
                    assert(p =~= old_pairs.push((key, val)));
                    assert(keys_distinct(p));
                    lemma_lookup_at(p, old_pairs.len() as int);
                    assert forall|k: Seq<char>| k != key implies lookup(p, k) == lookup(old_pairs, k) by {
                        if has_key(old_pairs, k) {
                            let j = choose|j: int| 0 <= j < old_pairs.len() && #[trigger] old_pairs[j].0 == k;
                            lemma_lookup_at(old_pairs, j);
                            assert(p[j] == old_pairs[j]);
                            lemma_lookup_at(p, j);
                        } else {
                            if has_key(p, k) {
                                let j = choose|j: int| 0 <= j < p.len() && #[trigger] p[j].0 == k;
                                assert(j < old_pairs.len());
                                assert(old_pairs[j].0 == k);
                            }
                        }
                    }
                }
            },
        }
    }

    /// Removes meeting `id` and returns its directory, or `None` when no
    /// directory is registered for it.
    pub fn take(&mut self, id: &str) -> (r: Option<String>)
        requires
            old(self).wf(),
        ensures
            final(self).wf(),
            r matches Some(d) ==> old(self).dir_of(id@) == Some(d@),
            r is None ==> old(self).dir_of(id@) is None,
            final(self).dir_of(id@) is None,
            forall|k: Seq<char>| k != id@ ==> final(self).dir_of(k) == old(self).dir_of(k),
    {
        let ghost old_pairs = self.pairs();
        match self.find(id) {
            None => {
                None
            },
            Some(i) => {
                proof {
                    lemma_lookup_at(old_pairs, i as int);
                }
                let e = self.entries.remove(i);
                proof {
                    let p = self.pairs();
                    assert(p =~= old_pairs.remove(i as int));
                    assert(keys_distinct(p)) by {
                        assert forall|a: int, b: int| 0 <= a < p.len() && 0 <= b < p.len() && a != b implies #[trigger] p[a].0
                            != #[trigger] p[b].0 by {
                            let a2 = if a < i { a } else { a + 1 };
                            let b2 = if b < i { b } else { b + 1 };
                            assert(p[a] == old_pairs[a2]);
                            assert(p[b] == old_pairs[b2]);
                        }
                    }
                    if has_key(p, id@) {
                        let j = choose|j: int| 0 <= j < p.len() && #[trigger] p[j].0 == id@;
                        let j2 = if j < i { j } else { j + 1 };
                        assert(old_pairs[j2].0 == id@);
                    }
                    assert forall|k: Seq<char>| k != id@ implies lookup(p, k) == lookup(old_pairs, k) by {
                        if has_key(old_pairs, k) {
                            let j = choose|j: int| 0 <= j < old_pairs.len() && #[trigger] old_pairs[j].0 == k;
                            lemma_lookup_at(old_pairs, j);
                            let j2 = if j < i { j } else { j - 1 };
                            assert(p[j2] == old_pairs[j]);
                            lemma_lookup_at(p, j2);
                        } else {
                            if has_key(p, k) {
                                let j = choose|j: int| 0 <= j < p.len() && #[trigger] p[j].0 == k;
                                let j2 = if j < i { j } else { j + 1 };
                                assert(old_pairs[j2].0 == k);
                            }
                        }
                    }
                }
                Some(e.1)
            },
        }
    }
}

/// The schema migrations still to apply, by position, when the database is at
/// version `current` and `count` migrations exist: those numbered (from 1)
/// above `current`, in order.
pub fn pending_migrations(current: u32, count: usize) -> (v: Vec<usize>)
    ensures
        v@.len() == (if count > current { count - current } else { 0 }),
        forall|j: int| 0 <= j < v@.len() ==> #[trigger] v@[j] == current + j,
{
    let mut v: Vec<usize> = Vec::new();
    let mut i: usize = 0;
    while i < count
        invariant
            i <= count,
            v@.len() == (if i > current { i - current } else { 0 }),
            forall|j: int| 0 <= j < v@.len() ==> #[trigger] v@[j] == current + j,
        decreases count - i,
    {
        if (i as u64) + 1 > current as u64 {
            v.push(i);
        }
        i += 1;
    }
    v
}

/// The chat status a meeting is left with after indexing: ready when it
/// succeeded, failed otherwise.
pub fn chat_status_after_indexing(succeeded: bool) -> (s: ChatStatus)
    ensures
        succeeded ==> s == ChatStatus::Ready,
        !succeeded ==> s == ChatStatus::Failed,
{
    if succeeded {
        ChatStatus::Ready
    } else {
        ChatStatus::Failed
    }
}

/// Errors of the meeting library.
#[derive(Debug)]
pub enum LibraryError {
    /// The database failed (its message).
    Db(String),
    /// The filesystem failed (its message).
    Io(String),
    /// No such meeting.
    NotFound(String),
    /// Something that should not happen did.
    Internal(String),
}

/// The message of a library error.
pub open spec fn library_error_text(e: LibraryError) -> Seq<char> {
    match e {
        LibraryError::Db(m) => "Database error: "@ + m@,
        LibraryError::Io(m) => "IO error: "@ + m@,
        LibraryError::NotFound(m) => "Meeting not found: "@ + m@,
        LibraryError::Internal(m) => "Internal error: "@ + m@,
    }
}

impl LibraryError {
    /// The error's message.
    pub fn message(&self) -> (s: String)
        ensures
            s@ == library_error_text(*self),
    {
        let (prefix, m) = match self {
            LibraryError::Db(m) => ("Database error: ", m),
            LibraryError::Io(m) => ("IO error: ", m),
            LibraryError::NotFound(m) => ("Meeting not found: ", m),
            LibraryError::Internal(m) => ("Internal error: ", m),
        };
        let mut s = owned(prefix);
        s.append(m.as_str());
        proof {
            reveal_strlit("Database error: ");
            reveal_strlit("IO error: ");
            reveal_strlit("Meeting not found: ");
            reveal_strlit("Internal error: ");
        }
        s
    }
}

/// Takes meeting `id` out of the prepared meetings, as finalizing or
/// cancelling a recording does, and returns its directory; a meeting that was
/// not prepared (or was already taken) is not found.
pub fn take_prepared(registry: &mut PreparedRegistry, id: &str) -> (r: Result<String, LibraryError>)
    requires
        old(registry).wf(),
    ensures
        final(registry).wf(),
        final(registry).dir_of(id@) is None,
        forall|k: Seq<char>| k != id@ ==> final(registry).dir_of(k) == old(registry).dir_of(k),
        r matches Ok(d) ==> old(registry).dir_of(id@) == Some(d@),
        r is Err ==> old(registry).dir_of(id@) is None,
        r matches Err(e) ==> (e matches LibraryError::NotFound(m) && m@ == "No prepared meeting with id "@
            + id@),
{
    match registry.take(id) {
        Some(d) => Ok(d),
        None => {
            let mut m = owned("No prepared meeting with id ");
            m.append(id);
            Err(LibraryError::NotFound(m))
        },
    }
}

/// Preparing a meeting and then finalizing or cancelling it hands back the
/// directory it was prepared with, exactly once: a second attempt finds nothing,
/// and the other prepared meetings are untouched.
pub proof fn lemma_prepare_then_take(
    before: PreparedRegistry,
    prepared: PreparedRegistry,
    taken: PreparedRegistry,
    id: Seq<char>,
    dir: Seq<char>,
    got: Option<Seq<char>>,
)
    requires
        prepared.dir_of(id) == Some(dir),
        forall|k: Seq<char>| k != id ==> prepared.dir_of(k) == before.dir_of(k),
        got == prepared.dir_of(id),
        taken.dir_of(id) is None,
        forall|k: Seq<char>| k != id ==> taken.dir_of(k) == prepared.dir_of(k),
    ensures
        got == Some(dir),
        taken.dir_of(id) is None,
        forall|k: Seq<char>| k != id ==> taken.dir_of(k) == before.dir_of(k),
{
}

} // verus!
