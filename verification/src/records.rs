//! The records the store keeps: books, import jobs, chunks, evidence,
//! sessions, turns, memories, timeline events and harness trace events.

use vstd::prelude::*;
use crate::model::owned;
use crate::foreign::{new_uuid, now_utc, is_hyphenated_uuid, is_utc_rfc3339};
use crate::text::chars_of;

verus! {

/// A moment in UTC, written as RFC 3339 text (the form the store keeps).
pub type Timestamp = String;

/// Where a novel is imported from, and an optional title for it.
#[derive(Debug, Clone)]
pub struct BookSource {
    pub path: String,
    pub title: Option<String>,
}

/// The life cycle of an import job.
#[derive(Debug, Clone, Copy, PartialEq, Eq, Structural)]
pub enum ImportStatus {
    Queued,
    Running,
    Completed,
    Failed,
}

/// A background import; progress is counted in thousandths.
#[derive(Debug, Clone)]
pub struct ImportJob {
    pub id: String,
    pub status: ImportStatus,
    pub progress_permille: u16,
    pub message: String,
    pub book_id: Option<String>,
    pub created_at: Timestamp,
}

/// What the store knows of an imported book.
#[derive(Debug, Clone)]
pub struct BookManifest {
    pub id: String,
    pub title: String,
    pub source_path: String,
    pub chapter_count: usize,
    pub chunk_count: usize,
    pub char_count: usize,
    pub status: ImportStatus,
    pub created_at: Timestamp,
}

/// A chunk of a book as search returns it, with its retrieval score.
#[derive(Debug, Clone)]
pub struct ChunkRef {
    pub book_id: String,
    pub chunk_index: usize,
    pub chapter_title: String,
    pub start_char: usize,
    pub end_char: usize,
    pub preview: String,
    pub score: i64,
}

/// A piece of source text that backs a turn.
#[derive(Debug, Clone)]
pub struct EvidenceSpan {
    pub chunk: ChunkRef,
    pub text: String,
}

/// Who the player is inside the story.
#[derive(Debug, Clone)]
pub struct PlayerIdentity {
    pub name: String,
    pub role: String,
    pub goal: String,
    pub tone: String,
}

/// The three moves a player has.
#[derive(Debug, Clone, Copy, PartialEq, Eq, Structural)]
pub enum PlayerActionKind {
    Speak,
    Act,
    Continue,
}

/// One move of the player.
#[derive(Debug, Clone)]
pub struct PlayerAction {
    pub kind: PlayerActionKind,
    pub text: String,
}

/// Something the story remembers about a turn.
#[derive(Debug, Clone)]
pub struct MemoryItem {
    pub id: String,
    pub label: String,
    pub value: String,
    pub turn_index: usize,
}

/// An entry of the story's timeline.
#[derive(Debug, Clone)]
pub struct TimelineEvent {
    pub id: String,
    pub title: String,
    pub summary: String,
    pub turn_index: usize,
}

/// Memories and timeline of a session, in turn order.
#[derive(Debug, Clone)]
pub struct WorldState {
    pub memories: Vec<MemoryItem>,
    pub timeline: Vec<TimelineEvent>,
}

/// The steps of the harness that the trace records.
#[derive(Debug, Clone, Copy, PartialEq, Eq, Structural)]
pub enum HarnessEventKind {
    SearchSource,
    ReadChunk,
    RetrieveContext,
    DraftScene,
    ContinuityCheck,
    UpdateMemory,
    CommitTurn,
    RollbackTurn,
}

/// A tool call made during a turn.
#[derive(Debug, Clone)]
pub struct ToolCallRecord {
    pub name: String,
    pub input_summary: String,
    pub output_summary: String,
    pub duration_ms: u64,
}

/// One entry of a turn's trace.
#[derive(Debug, Clone)]
pub struct HarnessEvent {
    pub id: String,
    pub kind: HarnessEventKind,
    pub title: String,
    pub detail: String,
    pub tool: Option<ToolCallRecord>,
    pub created_at: Timestamp,
}

/// A playthrough of one book by one identity.
#[derive(Debug, Clone)]
pub struct StorySession {
    pub id: String,
    pub book_id: String,
    pub identity: PlayerIdentity,
    pub current_scene: String,
    pub turn_count: usize,
    pub world: WorldState,
    pub updated_at: Timestamp,
}

/// One committed turn of a session.
#[derive(Debug, Clone)]
pub struct StoryTurn {
    pub id: String,
    pub session_id: String,
    pub turn_index: usize,
    pub action: PlayerAction,
    pub scene: String,
    pub evidence: Vec<EvidenceSpan>,
    pub trace: Vec<HarnessEvent>,
    pub created_at: Timestamp,
}

/// The name under which a status is stored.
pub open spec fn status_name(status: ImportStatus) -> Seq<char> {
    match status {
        ImportStatus::Queued => "queued"@,
        ImportStatus::Running => "running"@,
        ImportStatus::Completed => "completed"@,
        ImportStatus::Failed => "failed"@,
    }
}

/// The status a stored name stands for; unknown names read as completed.
pub open spec fn status_named(name: Seq<char>) -> ImportStatus {
    if name == "queued"@ {
        ImportStatus::Queued
    } else if name == "running"@ {
        ImportStatus::Running
    } else if name == "failed"@ {
        ImportStatus::Failed
    } else {
        ImportStatus::Completed
    }
}

pub fn status_to_str(status: &ImportStatus) -> (r: &'static str)
    ensures
        r@ == status_name(*status),
{
    match status {
        ImportStatus::Queued => "queued",
        ImportStatus::Running => "running",
        ImportStatus::Completed => "completed",
        ImportStatus::Failed => "failed",
    }
}

/// Whether two strings hold the same characters.
pub fn same_text(a: &str, b: &str) -> (r: bool)
    ensures
        r == (a@ == b@),
{
    let x = chars_of(a);
    let y = chars_of(b);
    if x.len() != y.len() {
        return false;
    }
    let mut i: usize = 0;
    while i < x.len()
        invariant
            x.len() == y.len(),
            x@ == a@,
            y@ == b@,
            i <= x.len(),
            forall|k: int| 0 <= k < i ==> x@[k] == y@[k],
        decreases x.len() - i,
    {
        if x[i] != y[i] {
            assert(x@[i as int] != y@[i as int]);
            return false;
        }
        i = i + 1;
    }
    assert(x@ =~= y@);
    true
}

pub fn status_from_str(status: &str) -> (r: ImportStatus)
    ensures
        r == status_named(status@),
{
    if same_text(status, "queued") {
        ImportStatus::Queued
    } else if same_text(status, "running") {
        ImportStatus::Running
    } else if same_text(status, "failed") {
        ImportStatus::Failed
    } else {
        ImportStatus::Completed
    }
}

/// Reading back the stored name of a status gives the status.
pub proof fn status_name_round_trip(status: ImportStatus)
    ensures
        status_named(status_name(status)) == status,
{
    reveal_strlit("queued");
    reveal_strlit("running");
    reveal_strlit("completed");
    reveal_strlit("failed");
    if status == ImportStatus::Completed {
        assert("completed"@[0] != "queued"@[0]);
        assert("completed"@[0] != "running"@[0]);
        assert("completed"@[0] != "failed"@[0]);
    } else if status == ImportStatus::Failed {
        assert("failed"@[0] != "queued"@[0]);
        assert("failed"@[0] != "running"@[0]);
    } else if status == ImportStatus::Running {
        assert("running"@[0] != "queued"@[0]);
    }
}

impl ImportJob {
    /// A job that waits to run.
    pub fn queued(id: String, created_at: Timestamp) -> (r: ImportJob)
        ensures
            r.id == id,
            r.status == ImportStatus::Queued,
            r.progress_permille == 0,
            r.message@ == "等待导入"@,
            r.book_id is None,
            r.created_at == created_at,
    {
        ImportJob {
            id,
            status: ImportStatus::Queued,
            progress_permille: 0,
            message: owned("等待导入"),
            book_id: None,
            created_at,
        }
    }

    /// A queued job under a fresh random identifier, stamped with the clock.
    pub fn start() -> (r: ImportJob)
        ensures
            is_hyphenated_uuid(r.id@),
            r.status == ImportStatus::Queued,
            r.progress_permille == 0,
            r.message@ == "等待导入"@,
            r.book_id is None,
            is_utc_rfc3339(r.created_at@),
    {
        let created_at = now_utc();
        ImportJob::queued(new_uuid(), created_at)
    }

    /// The job once reading has begun.
    pub fn running(&self) -> (r: ImportJob)
        ensures
            r.id == self.id,
            r.status == ImportStatus::Running,
            r.progress_permille == 50,
            r.message@ == "正在读取小说"@,
            r.book_id == self.book_id,
            r.created_at == self.created_at,
    {
        ImportJob {
            id: self.id.clone(),
            status: ImportStatus::Running,
            progress_permille: 50,
            message: owned("正在读取小说"),
            book_id: self.book_id.clone(),
            created_at: self.created_at.clone(),
        }
    }

    /// The job once the book is indexed.
    pub fn completed(&self, book_id: String) -> (r: ImportJob)
        ensures
            r.id == self.id,
            r.status == ImportStatus::Completed,
            r.progress_permille == 1000,
            r.message@ == "索引完成，可以开始穿书"@,
            r.book_id == Some(book_id),
            r.created_at == self.created_at,
    {
        ImportJob {
            id: self.id.clone(),
            status: ImportStatus::Completed,
            progress_permille: 1000,
            message: owned("索引完成，可以开始穿书"),
            book_id: Some(book_id),
            created_at: self.created_at.clone(),
        }
    }

    /// The job once the import has failed with `message`.
    pub fn failed(&self, message: String) -> (r: ImportJob)
        ensures
            r.id == self.id,
            r.status == ImportStatus::Failed,
            r.progress_permille == 1000,
            r.message == message,
            r.book_id is None,
            r.created_at == self.created_at,
    {
        ImportJob {
            id: self.id.clone(),
            status: ImportStatus::Failed,
            progress_permille: 1000,
            message,
            book_id: None,
            created_at: self.created_at.clone(),
        }
    }
}

} // verus!
