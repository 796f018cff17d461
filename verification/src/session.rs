//! The bookkeeping rules of a playthrough: how a session starts, how a turn
//! is numbered, what a rollback removes and restores, and how turns and
//! traces are read back.

use vstd::prelude::*;
use crate::foreign::{is_hyphenated_uuid, is_utc_rfc3339, new_uuid, now_utc};
use crate::model::owned;
use crate::records::{EvidenceSpan, HarnessEvent, PlayerAction, PlayerIdentity, StorySession, StoryTurn, WorldState};
use crate::text::chars_of;

verus! {

/// Turns a playthrough shows at once.
pub const RECENT_TURN_LIMIT: usize = 12;

/// Turns whose trace the trace view gathers.
pub const TRACE_TURN_LIMIT: usize = 200;

/// The scene a session shows after every turn has been rolled back.
pub open spec fn opening_return_scene() -> Seq<char> {
    "你回到了刚穿入故事的那一刻。"@
}

/// Why a session operation was refused.
#[derive(Debug, Clone, Copy, PartialEq, Eq, Structural)]
pub enum SessionError {
    /// The turn named in a rollback belongs to another session.
    TurnNotInSession,
}

pub open spec fn session_error_text(e: SessionError) -> Seq<char> {
    match e {
        SessionError::TurnNotInSession => "turn does not belong to session"@,
    }
}

impl SessionError {
    pub fn message(&self) -> (r: String)
        ensures
            r@ == session_error_text(*self),
    {
        match self {
            SessionError::TurnNotInSession => owned("turn does not belong to session"),
        }
    }
}

/// A new session of `book_id` for `identity`, at turn zero with an empty
/// world, under a fresh random identifier and the current time.
pub fn new_session(book_id: String, identity: PlayerIdentity, initial_scene: String) -> (r: StorySession)
    ensures
        is_hyphenated_uuid(r.id@),
        r.book_id == book_id,
        r.identity == identity,
        r.current_scene == initial_scene,
        r.turn_count == 0,
        r.world.memories@.len() == 0,
        r.world.timeline@.len() == 0,
        is_utc_rfc3339(r.updated_at@),
{
    StorySession {
        id: new_uuid(),
        book_id,
        identity,
        current_scene: initial_scene,
        turn_count: 0,
        world: WorldState { memories: Vec::new(), timeline: Vec::new() },
        updated_at: now_utc(),
    }
}

/// The turn that follows a session at `turn_count`: it is numbered
/// `turn_count + 1`, under a fresh random identifier and the current time.
pub fn new_turn(
    session_id: String,
    turn_count: usize,
    action: PlayerAction,
    scene: String,
    evidence: Vec<EvidenceSpan>,
    trace: Vec<HarnessEvent>,
) -> (r: StoryTurn)
    requires
        turn_count < usize::MAX,
    ensures
        is_hyphenated_uuid(r.id@),
        r.session_id == session_id,
        r.turn_index == turn_count + 1,
        r.action == action,
        r.scene == scene,
        r.evidence == evidence,
        r.trace == trace,
        is_utc_rfc3339(r.created_at@),
{
    StoryTurn {
        id: new_uuid(),
        session_id,
        turn_index: turn_count + 1,
        action,
        scene,
        evidence,
        trace,
        created_at: now_utc(),
    }
}

/// Where the scene of a rolled-back session comes from.
#[derive(Debug, Clone)]
pub enum SceneSource {
    /// A fixed text, when no turn is left.
    Opening(String),
    /// The scene of the kept turn with this index.
    TurnScene(usize),
}

/// What a rollback does: turns, memories and timeline events from
/// `from_index` on are removed, the session goes back to `keep_before`
/// turns, and its scene comes from `restore`.
#[derive(Debug, Clone)]
pub struct RollbackPlan {
    pub from_index: usize,
    pub keep_before: usize,
    pub restore: SceneSource,
}

/// How many turns a session keeps when the turn numbered `turn_index` is
/// rolled back.
pub open spec fn kept_turns(turn_index: usize) -> usize {
    if turn_index == 0 {
        0
    } else {
        (turn_index - 1) as usize
    }
}

/// Plans the rollback of `turn` in session `session_id`: the turn and every
/// later one go, and the session returns to the turn before it.
pub fn plan_rollback(session_id: &str, turn: &StoryTurn) -> (r: Result<RollbackPlan, SessionError>)
    ensures
        turn.session_id@ != session_id@ ==> r == Err::<RollbackPlan, SessionError>(
            SessionError::TurnNotInSession,
        ),
        turn.session_id@ == session_id@ ==> (r matches Ok(p) && p.from_index == turn.turn_index
            && p.keep_before == kept_turns(turn.turn_index) && (p.keep_before == 0 ==> (p.restore matches SceneSource::Opening(s) && s@
            == opening_return_scene())) && (p.keep_before > 0 ==> p.restore
            == SceneSource::TurnScene(p.keep_before))),
{
    if !same_chars_str(turn.session_id.as_str(), session_id) {
        return Err(SessionError::TurnNotInSession);
    }
    let keep_before = if turn.turn_index == 0 {
        0
    } else {
        turn.turn_index - 1
    };
    let restore = if keep_before == 0 {
        SceneSource::Opening(owned("你回到了刚穿入故事的那一刻。"))
    } else {
        SceneSource::TurnScene(keep_before)
    };
    Ok(RollbackPlan { from_index: turn.turn_index, keep_before, restore })
}

fn same_chars_str(a: &str, b: &str) -> (r: bool)
    ensures
        r == (a@ == b@),
{
    crate::records::same_text(a, b)
}

/// The newest turns as the store lists them (newest first), put back in
/// the order they were played.
pub fn chronological(newest_first: Vec<StoryTurn>) -> (r: Vec<StoryTurn>)
    ensures
        r@ == newest_first@.reverse(),
{
    let mut rest = newest_first;
    let ghost all = rest@;
    let mut out: Vec<StoryTurn> = Vec::new();
    while rest.len() > 0
        invariant
            all.len() == rest@.len() + out@.len(),
            rest@ == all.take(rest@.len() as int),
            out@ == all.skip(rest@.len() as int).reverse(),
        decreases rest.len(),
    {
        let ghost n = rest@.len();
        let t = rest.pop().unwrap();
        out.push(t);
        proof {
            assert(rest@ =~= all.take(n - 1));
            assert(out@ =~= all.skip(n - 1).reverse());
        }
    }
    proof {
        assert(all.skip(0) =~= all);
    }
    out
}

/// The traces of `turns`, one after the other.
pub open spec fn joined_traces(turns: Seq<StoryTurn>) -> Seq<HarnessEvent>
    decreases turns.len(),
{
    if turns.len() == 0 {
        seq![]
    } else {
        joined_traces(turns.drop_last()) + turns.last().trace@
    }
}

/// Gathers the trace events of `turns` in turn order.
pub fn concat_traces(turns: Vec<StoryTurn>) -> (r: Vec<HarnessEvent>)
    ensures
        r@ == joined_traces(turns@),
{
    let ghost all = turns@;
    let mut rest = turns;
    assert(all.len() == rest.len());
    let mut out: Vec<HarnessEvent> = Vec::new();
    let mut k: usize = 0;
    while rest.len() > 0
        invariant
            all.len() == k + rest@.len(),
            all.len() <= usize::MAX,
            rest@ == all.skip(k as int),
            out@ == joined_traces(all.take(k as int)),
        decreases rest.len(),
    {
        let t = rest.remove(0);
        let mut tr = t.trace;
        proof {
            assert(all.take(k + 1).drop_last() =~= all.take(k as int));
            assert(all.take(k + 1).last() == all[k as int]);
            assert(all.skip(k as int)[0] == all[k as int]);
        }
        out.append(&mut tr);
        k = k + 1;
        proof {
            assert(rest@ =~= all.skip(k as int));
        }
    }
    proof {
        assert(all.take(k as int) =~= all);
    }
    out
}

/// Rolling back the turn that a save has just added brings the session back
/// to the number of turns it had before the save, and to the opening scene
/// when that number is zero.
pub proof fn rollback_undoes_save(turn_count: usize)
    requires
        turn_count < usize::MAX,
    ensures
        kept_turns((turn_count + 1) as usize) == turn_count,
{
}

/// Turns listed newest first come back in the order they were played.
pub proof fn chronological_order_ascends(newest_first: Seq<StoryTurn>)
    requires
        forall|a: int, b: int|
            0 <= a < b < newest_first.len() ==> (#[trigger] newest_first[a]).turn_index > (
            #[trigger] newest_first[b]).turn_index,
    ensures
        forall|a: int, b: int|
            0 <= a < b < newest_first.len() ==> (#[trigger] newest_first.reverse()[a]).turn_index
                < (#[trigger] newest_first.reverse()[b]).turn_index,
{
    let n = newest_first.len() as int;
    assert forall|a: int, b: int| 0 <= a < b < n implies (#[trigger] newest_first.reverse()[a]).turn_index
        < (#[trigger] newest_first.reverse()[b]).turn_index by {
        assert(newest_first.reverse()[a] == newest_first[n - 1 - a]);
        assert(newest_first.reverse()[b] == newest_first[n - 1 - b]);
    }
}

} // verus!
