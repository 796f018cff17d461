//! The story harness: the texts a turn is built from (retrieval query,
//! opening scene, context, scene prompt, labels, trace events) and the turn
//! loop as a state machine that the caller drives with the results of the
//! store and of the model.

use vstd::prelude::*;
use crate::index::EVIDENCE_TEXT_MAX_CHARS;
use crate::foreign::{elapsed_ms, is_hyphenated_uuid, is_utc_rfc3339, new_uuid, now_utc, stopwatch};
use crate::model::{owned, ModelError, ModelRequest, ModelResponse};
use crate::records::{BookManifest, EvidenceSpan, HarnessEvent, HarnessEventKind, MemoryItem, PlayerAction, PlayerActionKind, PlayerIdentity, StorySession, StoryTurn, TimelineEvent, ToolCallRecord};
use crate::text::{chars_of, compact, compact_text, decimal, decimal_string, is_blank, take_chars, take_prefix, trim, trimmed};

verus! {

/// Evidence spans a turn retrieves.
pub const TURN_EVIDENCE_LIMIT: usize = 4;

/// Evidence spans the opening scene retrieves.
pub const OPENING_EVIDENCE_LIMIT: usize = 2;

/// Most characters a scene may have.
pub const SCENE_MAX_CHARS: usize = 1200;

/// Fewest characters a scene must have.
pub const SCENE_MIN_CHARS: usize = 20;

/// What the player sees, after any turn.
#[derive(Debug, Clone)]
pub struct PlaythroughState {
    pub book: BookManifest,
    pub session: StorySession,
    pub recent_turns: Vec<StoryTurn>,
    pub last_evidence: Vec<EvidenceSpan>,
}

/// Why a turn stopped.
#[derive(Debug, Clone)]
pub enum HarnessError {
    /// The model answered with nothing but white space.
    EmptyScene,
    /// The scene has fewer than twenty characters.
    SceneTooShort,
    /// No source evidence was found for the turn.
    NoEvidence,
    /// The model client failed.
    Model(ModelError),
    /// An event arrived that the turn was not waiting for.
    OutOfOrder,
    /// The search handed back more evidence than a turn may send.
    TooMuchEvidence,
}

pub open spec fn harness_error_text(e: HarnessError) -> Seq<char> {
    match e {
        HarnessError::EmptyScene => "模型返回了空场景"@,
        HarnessError::SceneTooShort => "场景太短，无法继续"@,
        HarnessError::NoEvidence => "没有找到原文依据，已停止本回合"@,
        HarnessError::Model(ModelError::Failed(m)) => m@,
        HarnessError::OutOfOrder => "回合步骤顺序错误"@,
        HarnessError::TooMuchEvidence => "原文片段超出本回合上限"@,
    }
}

impl HarnessError {
    pub fn message(&self) -> (r: String)
        ensures
            r@ == harness_error_text(*self),
    {
        match self {
            HarnessError::EmptyScene => owned("模型返回了空场景"),
            HarnessError::SceneTooShort => owned("场景太短，无法继续"),
            HarnessError::NoEvidence => owned("没有找到原文依据，已停止本回合"),
            HarnessError::Model(ModelError::Failed(m)) => m.clone(),
            HarnessError::OutOfOrder => owned("回合步骤顺序错误"),
            HarnessError::TooMuchEvidence => owned("原文片段超出本回合上限"),
        }
    }
}

/// How an action kind is named to the model and in labels.
pub open spec fn kind_word(k: PlayerActionKind) -> Seq<char> {
    match k {
        PlayerActionKind::Speak => "说一句"@,
        PlayerActionKind::Act => "做动作"@,
        PlayerActionKind::Continue => "继续剧情"@,
    }
}

pub fn kind_word_of(k: PlayerActionKind) -> (r: String)
    ensures
        r@ == kind_word(k),
{
    match k {
        PlayerActionKind::Speak => owned("说一句"),
        PlayerActionKind::Act => owned("做动作"),
        PlayerActionKind::Continue => owned("继续剧情"),
    }
}

/// The label of the memory a turn leaves.
pub open spec fn memory_label(k: PlayerActionKind) -> Seq<char> {
    match k {
        PlayerActionKind::Speak => "说过的话"@,
        PlayerActionKind::Act => "做过的事"@,
        PlayerActionKind::Continue => "剧情推进"@,
    }
}

pub fn memory_label_of(k: PlayerActionKind) -> (r: String)
    ensures
        r@ == memory_label(k),
{
    match k {
        PlayerActionKind::Speak => owned("说过的话"),
        PlayerActionKind::Act => owned("做过的事"),
        PlayerActionKind::Continue => owned("剧情推进"),
    }
}

/// The search text of a turn: who the player is, the scene and the move.
pub open spec fn retrieval_query_text(s: StorySession, a: PlayerAction) -> Seq<char> {
    s.identity.name@ + " "@ + s.identity.role@ + " "@ + s.identity.goal@ + " "@
        + s.current_scene@ + " "@ + a.text@
}

pub fn build_retrieval_query(session: &StorySession, action: &PlayerAction) -> (r: String)
    ensures
        r@ == retrieval_query_text(*session, *action),
{
    let mut q = session.identity.name.clone();
    q.append(" ");
    q.append(session.identity.role.as_str());
    q.append(" ");
    q.append(session.identity.goal.as_str());
    q.append(" ");
    q.append(session.current_scene.as_str());
    q.append(" ");
    q.append(action.text.as_str());
    q
}

/// The search text of an opening scene.
pub open spec fn opening_query_text(id: PlayerIdentity) -> Seq<char> {
    id.name@ + " "@ + id.goal@
}

pub fn opening_query(identity: &PlayerIdentity) -> (r: String)
    ensures
        r@ == opening_query_text(*identity),
{
    let mut q = identity.name.clone();
    q.append(" ");
    q.append(identity.goal.as_str());
    q
}

/// The source line quoted in an opening scene.
pub open spec fn source_hint(ev: Seq<EvidenceSpan>) -> Seq<char> {
    if ev.len() > 0 {
        take_chars(ev[0].text@, 120)
    } else {
        "原文索引已经准备好。"@
    }
}

/// The first scene of a playthrough.
pub open spec fn opening_scene_text(title: Seq<char>, id: PlayerIdentity, ev: Seq<EvidenceSpan>) -> Seq<char> {
    "你穿进《"@ + title + "》，成为「"@ + id.name@ + "」。\n\n当前身份："@ + id.role@ + "。\n目标："@
        + id.goal@ + "。\n\n你先记住眼前最重要的原文线索："@ + source_hint(ev)
}

pub fn opening_scene(book: &BookManifest, identity: &PlayerIdentity, evidence: &Vec<EvidenceSpan>) -> (r: String)
    ensures
        r@ == opening_scene_text(book.title@, *identity, evidence@),
{
    let hint = if evidence.len() > 0 {
        take_prefix(evidence[0].text.as_str(), 120)
    } else {
        owned("原文索引已经准备好。")
    };
    let mut s = owned("你穿进《");
    s.append(book.title.as_str());
    s.append("》，成为「");
    s.append(identity.name.as_str());
    s.append("」。\n\n当前身份：");
    s.append(identity.role.as_str());
    s.append("。\n目标：");
    s.append(identity.goal.as_str());
    s.append("。\n\n你先记住眼前最重要的原文线索：");
    s.append(hint.as_str());
    s
}

/// The line under which evidence span `i` is shown to the model.
pub open spec fn context_piece(i: nat, e: EvidenceSpan) -> Seq<char> {
    "[片段"@ + decimal(i + 1) + "｜"@ + e.chunk.chapter_title@ + "] "@ + e.text@
}

/// The first `n` evidence pieces joined by blank lines.
pub open spec fn context_upto(ev: Seq<EvidenceSpan>, n: nat) -> Seq<char>
    decreases n,
{
    if n == 0 {
        seq![]
    } else if n == 1 {
        context_piece(0, ev[0])
    } else {
        context_upto(ev, (n - 1) as nat) + "\n\n"@ + context_piece((n - 1) as nat, ev[n - 1])
    }
}

/// All evidence of a turn as the model sees it.
pub open spec fn context_text(ev: Seq<EvidenceSpan>) -> Seq<char> {
    context_upto(ev, ev.len())
}

pub fn build_context(evidence: &Vec<EvidenceSpan>) -> (r: String)
    ensures
        r@ == context_text(evidence@),
{
    let mut out = String::new();
    let mut i: usize = 0;
    while i < evidence.len()
        invariant
            i <= evidence.len(),
            out@ == context_upto(evidence@, i as nat),
        decreases evidence.len() - i,
    {
        if i > 0 {
            out.append("\n\n");
        }
        out.append("[片段");
        out.append(decimal_string(i + 1).as_str());
        out.append("｜");
        out.append(evidence[i].chunk.chapter_title.as_str());
        out.append("] ");
        out.append(evidence[i].text.as_str());
        i = i + 1;
    }
    out
}

/// The instruction that frames every scene request.
pub open spec fn director_system() -> Seq<char> {
    "你是一个穿书互动小说导演。严格根据原文依据延展，不要一次性改变主线。"@
}

/// The prompt of a scene request.
pub open spec fn scene_prompt_text(
    book: BookManifest,
    s: StorySession,
    a: PlayerAction,
    context: Seq<char>,
) -> Seq<char> {
    "小说："@ + book.title@ + "\n玩家身份："@ + s.identity.name@ + " / "@ + s.identity.role@
        + "\n玩家目标："@ + s.identity.goal@ + "\n当前场景：\n"@ + s.current_scene@
        + "\n\n原文依据：\n"@ + context + "\n\n玩家动作类型："@ + kind_word(a.kind)
        + "\n玩家动作："@ + a.text@
        + "\n\n请输出下一段当前场景，要求：\n1. 用户读起来像自然穿书剧情，不暴露工具、模型、索引、token 等技术词。\n2. 必须尊重原文依据，不要突然改变主线设定。\n3. 结尾留一个自然选择空间，不要替玩家做完所有决定。\n"@
}

pub fn build_scene_prompt(
    book: &BookManifest,
    session: &StorySession,
    action: &PlayerAction,
    context: &str,
) -> (r: String)
    ensures
        r@ == scene_prompt_text(*book, *session, *action, context@),
{
    let mut p = owned("小说：");
    p.append(book.title.as_str());
    p.append("\n玩家身份：");
    p.append(session.identity.name.as_str());
    p.append(" / ");
    p.append(session.identity.role.as_str());
    p.append("\n玩家目标：");
    p.append(session.identity.goal.as_str());
    p.append("\n当前场景：\n");
    p.append(session.current_scene.as_str());
    p.append("\n\n原文依据：\n");
    p.append(context);
    p.append("\n\n玩家动作类型：");
    p.append(kind_word_of(action.kind).as_str());
    p.append("\n玩家动作：");
    p.append(action.text.as_str());
    p.append(
        "\n\n请输出下一段当前场景，要求：\n1. 用户读起来像自然穿书剧情，不暴露工具、模型、索引、token 等技术词。\n2. 必须尊重原文依据，不要突然改变主线设定。\n3. 结尾留一个自然选择空间，不要替玩家做完所有决定。\n",
    );
    p
}

/// The model's answer without surrounding white space; an answer that is
/// all white space is refused.
pub fn normalize_scene(text: &str) -> (r: Result<String, HarnessError>)
    ensures
        trim(text@).len() == 0 ==> r matches Err(HarnessError::EmptyScene),
        trim(text@).len() > 0 ==> (r matches Ok(s) && s@ == trim(text@)),
{
    let scene = trimmed(text);
    if chars_of(scene.as_str()).len() == 0 {
        return Err(HarnessError::EmptyScene);
    }
    Ok(scene)
}

/// A scene passes when it has at least twenty characters and the turn has
/// evidence behind it.
pub fn continuity_check(scene: &str, evidence: &Vec<EvidenceSpan>) -> (r: Result<(), HarnessError>)
    ensures
        scene@.len() < SCENE_MIN_CHARS ==> r matches Err(HarnessError::SceneTooShort),
        scene@.len() >= SCENE_MIN_CHARS && evidence@.len() == 0 ==> r matches Err(HarnessError::NoEvidence),
        scene@.len() >= SCENE_MIN_CHARS && evidence@.len() > 0 ==> r is Ok,
{
    if chars_of(scene).len() < SCENE_MIN_CHARS {
        return Err(HarnessError::SceneTooShort);
    }
    if evidence.len() == 0 {
        return Err(HarnessError::NoEvidence);
    }
    Ok(())
}

/// How a move is summarised in the trace.
pub open spec fn action_label_text(a: PlayerAction) -> Seq<char> {
    kind_word(a.kind) + ": "@ + compact_text(a.text@, 80)
}

pub fn action_label(action: &PlayerAction) -> (r: String)
    ensures
        r@ == action_label_text(*action),
{
    let mut s = kind_word_of(action.kind);
    s.append(": ");
    s.append(compact(action.text.as_str(), 80).as_str());
    s
}

/// `e` is a trace event of `kind` with these texts and a tool call with
/// these texts.
pub open spec fn tool_event_is(
    e: HarnessEvent,
    kind: HarnessEventKind,
    title: Seq<char>,
    detail: Seq<char>,
    tool: Seq<char>,
    input: Seq<char>,
    output: Seq<char>,
) -> bool {
    &&& e.kind == kind
    &&& e.title@ == title
    &&& e.detail@ == detail
    &&& e.tool matches Some(t) && t.name@ == tool && t.input_summary@ == input && t.output_summary@
        == output
    &&& is_hyphenated_uuid(e.id@)
}

/// `e` is a trace event of `kind` with these texts and no tool call.
pub open spec fn plain_event_is(e: HarnessEvent, kind: HarnessEventKind, title: Seq<char>, detail: Seq<char>) -> bool {
    &&& e.kind == kind
    &&& e.title@ == title
    &&& e.detail@ == detail
    &&& e.tool is None
    &&& is_hyphenated_uuid(e.id@)
}

/// A trace event with a tool call, under a fresh identifier and the
/// current time.
pub fn event_with_tool(
    kind: HarnessEventKind,
    title: String,
    detail: String,
    tool_name: String,
    input_summary: String,
    output_summary: String,
    duration_ms: u64,
) -> (r: HarnessEvent)
    ensures
        tool_event_is(r, kind, title@, detail@, tool_name@, input_summary@, output_summary@),
        r.tool matches Some(t) && t.duration_ms == duration_ms,
        is_utc_rfc3339(r.created_at@),
{
    HarnessEvent {
        id: new_uuid(),
        kind,
        title,
        detail,
        tool: Some(ToolCallRecord { name: tool_name, input_summary, output_summary, duration_ms }),
        created_at: now_utc(),
    }
}

/// A trace event without a tool call, under a fresh identifier and the
/// current time.
pub fn simple_event(kind: HarnessEventKind, title: String, detail: String) -> (r: HarnessEvent)
    ensures
        plain_event_is(r, kind, title@, detail@),
        is_utc_rfc3339(r.created_at@),
{
    HarnessEvent { id: new_uuid(), kind, title, detail, tool: None, created_at: now_utc() }
}

/// Where a turn stands between two outside steps.
#[derive(Debug)]
pub enum TurnStage {
    /// Waiting for the evidence of `query`.
    Searching {
        session: StorySession,
        book: BookManifest,
        action: PlayerAction,
        query: String,
        next_index: usize,
    },
    /// Waiting for the model's scene.
    Drafting {
        session: StorySession,
        book: BookManifest,
        action: PlayerAction,
        evidence: Vec<EvidenceSpan>,
        trace: Vec<HarnessEvent>,
        next_index: usize,
    },
    /// Waiting for the store to save the turn.
    Saving { session_id: String },
    /// Waiting for the session's state after the save.
    Loading { commit_trace: Vec<HarnessEvent> },
    /// Nothing left to do.
    Done,
}

/// What the caller reports back after doing a step.
#[derive(Debug)]
pub enum TurnEvent {
    /// The search returned these spans after `elapsed_ms`.
    Found { evidence: Vec<EvidenceSpan>, elapsed_ms: u64 },
    /// The model answered after `elapsed_ms`.
    Drafted { reply: Result<ModelResponse, ModelError>, elapsed_ms: u64 },
    /// The store saved the turn and read it back.
    Saved { turn: StoryTurn },
    /// The store read the session's state.
    Loaded { state: PlaythroughState },
}

/// The step the caller must do next.
#[derive(Debug)]
pub enum TurnCommand {
    /// Search the book for the query.
    Search { book_id: String, query: String, limit: usize },
    /// Ask the model for a scene.
    Draft { request: ModelRequest },
    /// Save the turn with its memory and timeline entry.
    Save {
        session_id: String,
        action: PlayerAction,
        scene: String,
        evidence: Vec<EvidenceSpan>,
        trace: Vec<HarnessEvent>,
        memory: MemoryItem,
        timeline: TimelineEvent,
    },
    /// Read the session's state, with this evidence as the last one shown.
    Load { session_id: String, evidence: Vec<EvidenceSpan> },
    /// The turn is complete.
    Finish { state: PlaythroughState },
    /// The turn stopped.
    Fail { error: HarnessError },
}

/// Starts a turn of `action` in `session` of `book`: the first step is a
/// search for the turn's retrieval query.
pub fn begin_turn(session: StorySession, book: BookManifest, action: PlayerAction) -> (r: (TurnStage, TurnCommand))
    requires
        session.turn_count < usize::MAX,
    ensures
        r.1 matches TurnCommand::Search { book_id, query, limit } && book_id == session.book_id
            && query@ == retrieval_query_text(session, action) && limit == TURN_EVIDENCE_LIMIT,
        r.0 matches TurnStage::Searching { session: s, book: b, action: a, query, next_index } && s
            == session && b == book && a == action && query@ == retrieval_query_text(session, action)
            && next_index == session.turn_count + 1,
{
    let query = build_retrieval_query(&session, &action);
    let book_id = session.book_id.clone();
    let next_index = session.turn_count + 1;
    let cmd = TurnCommand::Search { book_id, query: query.clone(), limit: TURN_EVIDENCE_LIMIT };
    (TurnStage::Searching { session, book, action, query, next_index }, cmd)
}

/// What a turn may hand to the model: at most `TURN_EVIDENCE_LIMIT` spans,
/// each with at most `EVIDENCE_TEXT_MAX_CHARS` characters of text.
pub open spec fn evidence_within_bounds(ev: Seq<EvidenceSpan>) -> bool {
    &&& ev.len() <= TURN_EVIDENCE_LIMIT
    &&& forall|k: int| 0 <= k < ev.len() ==> (#[trigger] ev[k]).text@.len() <= EVIDENCE_TEXT_MAX_CHARS
}

/// Whether `evidence` stays within what a turn may send.
pub fn evidence_fits(evidence: &Vec<EvidenceSpan>) -> (r: bool)
    ensures
        r == evidence_within_bounds(evidence@),
{
    if evidence.len() > TURN_EVIDENCE_LIMIT {
        return false;
    }
    let mut i: usize = 0;
    while i < evidence.len()
        invariant
            i <= evidence.len(),
            forall|k: int| 0 <= k < i ==> (#[trigger] evidence@[k]).text@.len() <= EVIDENCE_TEXT_MAX_CHARS,
        decreases evidence.len() - i,
    {
        if chars_of(evidence[i].text.as_str()).len() > EVIDENCE_TEXT_MAX_CHARS {
            return false;
        }
        i = i + 1;
    }
    true
}

/// The step after the evidence of a turn is found.
pub open spec fn searched_step(
    session: StorySession,
    book: BookManifest,
    action: PlayerAction,
    query: Seq<char>,
    next_index: usize,
    evidence: Vec<EvidenceSpan>,
    elapsed_ms: u64,
    stage: TurnStage,
    cmd: TurnCommand,
) -> bool {
    let n = evidence@.len();
    let context = context_text(evidence@);
    &&& cmd matches TurnCommand::Draft { request } && request.system@ == director_system()
        && request.prompt@ == scene_prompt_text(book, session, action, context)
        && request.max_output_chars == SCENE_MAX_CHARS
    &&& stage matches TurnStage::Drafting { session: s, book: b, action: a, evidence: ev, trace, next_index: ni }
        && s == session && b == book && a == action && ev == evidence && ni == next_index
        && trace@.len() == 2 && tool_event_is(
        trace@[0],
        HarnessEventKind::SearchSource,
        "正在查原文"@,
        "从《"@ + book.title@ + "》里找和本回合最相关的片段"@,
        "search_source"@,
        "query: "@ + compact_text(query, 80),
        "命中 "@ + decimal(n) + " 个片段"@,
    ) && (trace@[0].tool matches Some(t) && t.duration_ms == elapsed_ms) && tool_event_is(
        trace@[1],
        HarnessEventKind::RetrieveContext,
        "正在整理线索"@,
        "只把当前回合必要片段交给模型"@,
        "retrieve_context"@,
        decimal(n) + " evidence spans"@,
        compact_text(context, 120),
    )
}

fn on_found(
    session: StorySession,
    book: BookManifest,
    action: PlayerAction,
    query: String,
    next_index: usize,
    evidence: Vec<EvidenceSpan>,
    elapsed: u64,
) -> (r: (TurnStage, TurnCommand))
    ensures
        searched_step(session, book, action, query@, next_index, evidence, elapsed, r.0, r.1),
{
    let n = evidence.len();
    let mut detail = owned("从《");
    detail.append(book.title.as_str());
    detail.append("》里找和本回合最相关的片段");
    let mut input = owned("query: ");
    input.append(compact(query.as_str(), 80).as_str());
    let mut output = owned("命中 ");
    output.append(decimal_string(n).as_str());
    output.append(" 个片段");
    let search = event_with_tool(
        HarnessEventKind::SearchSource,
        owned("正在查原文"),
        detail,
        owned("search_source"),
        input,
        output,
        elapsed,
    );
    let started = stopwatch();
    let context = build_context(&evidence);
    let mut spans = decimal_string(n);
    spans.append(" evidence spans");
    let retrieve = event_with_tool(
        HarnessEventKind::RetrieveContext,
        owned("正在整理线索"),
        owned("只把当前回合必要片段交给模型"),
        owned("retrieve_context"),
        spans,
        compact(context.as_str(), 120),
        elapsed_ms(&started),
    );
    let mut trace: Vec<HarnessEvent> = Vec::new();
    trace.push(search);
    trace.push(retrieve);
    let prompt = build_scene_prompt(&book, &session, &action, context.as_str());
    let request = ModelRequest {
        system: owned("你是一个穿书互动小说导演。严格根据原文依据延展，不要一次性改变主线。"),
        prompt,
        max_output_chars: SCENE_MAX_CHARS,
    };
    (
        TurnStage::Drafting { session, book, action, evidence, trace, next_index },
        TurnCommand::Draft { request },
    )
}

/// The title of the timeline entry of turn `i`.
pub open spec fn turn_title(i: nat) -> Seq<char> {
    "第 "@ + decimal(i) + " 回合"@
}

/// The step after the model has answered.
pub open spec fn drafted_step(
    session: StorySession,
    action: PlayerAction,
    evidence: Vec<EvidenceSpan>,
    trace: Seq<HarnessEvent>,
    next_index: usize,
    reply: Result<ModelResponse, ModelError>,
    stage: TurnStage,
    cmd: TurnCommand,
) -> bool {
    match reply {
        Err(e) => cmd == TurnCommand::Fail { error: HarnessError::Model(e) } && stage is Done,
        Ok(resp) => {
            let scene = trim(resp.text@);
            if scene.len() == 0 {
                cmd matches TurnCommand::Fail { error: HarnessError::EmptyScene } && stage is Done
            } else if scene.len() < SCENE_MIN_CHARS {
                cmd matches TurnCommand::Fail { error: HarnessError::SceneTooShort } && stage is Done
            } else if evidence@.len() == 0 {
                cmd matches TurnCommand::Fail { error: HarnessError::NoEvidence } && stage is Done
            } else {
                let value = compact_text(action.text@, 80);
                &&& stage matches TurnStage::Saving { session_id } && session_id == session.id
                &&& cmd matches TurnCommand::Save {
                    session_id,
                    action: a,
                    scene: sc,
                    evidence: ev,
                    trace: tr,
                    memory,
                    timeline,
                } && session_id == session.id && a == action && sc@ == scene && ev == evidence
                    && tr@.len() == trace.len() + 3 && tr@.take(trace.len() as int) == trace
                    && tool_event_is(
                    tr@[trace.len() as int],
                    HarnessEventKind::DraftScene,
                    "正在续写"@,
                    "根据玩家动作和原文依据生成当前场景"@,
                    "draft_scene"@,
                    action_label_text(action),
                    compact_text(scene, 120),
                ) && tool_event_is(
                    tr@[trace.len() + 1int],
                    HarnessEventKind::ContinuityCheck,
                    "正在检查剧情连续性"@,
                    "确认本回合没有空场景，且保留原文依据"@,
                    "continuity_check"@,
                    "scene + evidence"@,
                    "通过"@,
                ) && plain_event_is(
                    tr@[trace.len() + 2int],
                    HarnessEventKind::UpdateMemory,
                    "正在保存记忆"@,
                    memory_label(action.kind) + "："@ + value,
                ) && is_hyphenated_uuid(memory.id@) && memory.label@ == memory_label(action.kind)
                    && memory.value@ == value && memory.turn_index == next_index
                    && is_hyphenated_uuid(timeline.id@) && timeline.title@ == turn_title(
                    next_index as nat,
                ) && timeline.summary@ == compact_text(scene, 90) && timeline.turn_index
                    == next_index
            }
        },
    }
}

fn on_drafted(
    session: StorySession,
    action: PlayerAction,
    evidence: Vec<EvidenceSpan>,
    trace: Vec<HarnessEvent>,
    next_index: usize,
    reply: Result<ModelResponse, ModelError>,
    elapsed: u64,
) -> (r: (TurnStage, TurnCommand))
    ensures
        drafted_step(session, action, evidence, trace@, next_index, reply, r.0, r.1),
{
    let resp = match reply {
        Err(e) => {
            return (TurnStage::Done, TurnCommand::Fail { error: HarnessError::Model(e) });
        },
        Ok(resp) => resp,
    };
    let scene = match normalize_scene(resp.text.as_str()) {
        Err(e) => {
            return (TurnStage::Done, TurnCommand::Fail { error: e });
        },
        Ok(s) => s,
    };
    let draft = event_with_tool(
        HarnessEventKind::DraftScene,
        owned("正在续写"),
        owned("根据玩家动作和原文依据生成当前场景"),
        owned("draft_scene"),
        action_label(&action),
        compact(scene.as_str(), 120),
        elapsed,
    );
    let started = stopwatch();
    match continuity_check(scene.as_str(), &evidence) {
        Err(e) => {
            return (TurnStage::Done, TurnCommand::Fail { error: e });
        },
        Ok(()) => {},
    }
    let check = event_with_tool(
        HarnessEventKind::ContinuityCheck,
        owned("正在检查剧情连续性"),
        owned("确认本回合没有空场景，且保留原文依据"),
        owned("continuity_check"),
        owned("scene + evidence"),
        owned("通过"),
        elapsed_ms(&started),
    );
    let memory = MemoryItem {
        id: new_uuid(),
        label: memory_label_of(action.kind),
        value: compact(action.text.as_str(), 80),
        turn_index: next_index,
    };
    let mut title = owned("第 ");
    title.append(decimal_string(next_index).as_str());
    title.append(" 回合");
    let timeline = TimelineEvent {
        id: new_uuid(),
        title,
        summary: compact(scene.as_str(), 90),
        turn_index: next_index,
    };
    let mut note = memory.label.clone();
    note.append("：");
    note.append(memory.value.as_str());
    let remember = simple_event(HarnessEventKind::UpdateMemory, owned("正在保存记忆"), note);
    let ghost old_trace = trace@;
    let mut trace = trace;
    trace.push(draft);
    trace.push(check);
    trace.push(remember);
    proof {
        assert(trace@.take(old_trace.len() as int) =~= old_trace);
    }
    let session_id = session.id;
    (
        TurnStage::Saving { session_id: session_id.clone() },
        TurnCommand::Save { session_id, action, scene, evidence, trace, memory, timeline },
    )
}

/// The step after the store has saved the turn: the trace gains its commit
/// event and the session's state is read with the turn's evidence.
pub open spec fn saved_step(session_id: String, turn: StoryTurn, stage: TurnStage, cmd: TurnCommand) -> bool {
    &&& cmd matches TurnCommand::Load { session_id: sid, evidence } && sid == session_id && evidence
        == turn.evidence
    &&& stage matches TurnStage::Loading { commit_trace } && commit_trace@.len() == turn.trace@.len()
        + 1 && commit_trace@.take(turn.trace@.len() as int) == turn.trace@ && plain_event_is(
        commit_trace@.last(),
        HarnessEventKind::CommitTurn,
        "已保存"@,
        "第 "@ + decimal(turn.turn_index as nat) + " 回合已保存"@,
    )
}

fn on_saved(session_id: String, turn: StoryTurn) -> (r: (TurnStage, TurnCommand))
    ensures
        saved_step(session_id, turn, r.0, r.1),
{
    let mut detail = owned("第 ");
    detail.append(decimal_string(turn.turn_index).as_str());
    detail.append(" 回合已保存");
    let commit = simple_event(HarnessEventKind::CommitTurn, owned("已保存"), detail);
    let ghost saved = turn.trace@;
    let mut commit_trace = turn.trace;
    commit_trace.push(commit);
    proof {
        assert(commit_trace@.take(saved.len() as int) =~= saved);
    }
    (TurnStage::Loading { commit_trace }, TurnCommand::Load { session_id, evidence: turn.evidence })
}

/// The step after the state is read: the newest turn shows the trace with
/// its commit event.
pub open spec fn loaded_step(
    commit_trace: Vec<HarnessEvent>,
    state: PlaythroughState,
    stage: TurnStage,
    cmd: TurnCommand,
) -> bool {
    &&& stage is Done
    &&& cmd matches TurnCommand::Finish { state: out } && out.book == state.book && out.session
        == state.session && out.last_evidence == state.last_evidence && out.recent_turns@.len()
        == state.recent_turns@.len() && (state.recent_turns@.len() == 0 ==> out.recent_turns
        == state.recent_turns) && (state.recent_turns@.len() > 0 ==> {
        let n = state.recent_turns@.len() - 1;
        let old = state.recent_turns@[n];
        let new = out.recent_turns@[n];
        &&& out.recent_turns@.take(n) == state.recent_turns@.take(n)
        &&& new.id == old.id && new.session_id == old.session_id && new.turn_index
            == old.turn_index && new.action == old.action && new.scene == old.scene
            && new.evidence == old.evidence && new.created_at == old.created_at
        &&& new.trace == commit_trace
    })
}

fn on_loaded(commit_trace: Vec<HarnessEvent>, state: PlaythroughState) -> (r: (TurnStage, TurnCommand))
    ensures
        loaded_step(commit_trace, state, r.0, r.1),
{
    let ghost before = state;
    let mut state = state;
    if state.recent_turns.len() > 0 {
        let mut last = state.recent_turns.pop().unwrap();
        last.trace = commit_trace;
        state.recent_turns.push(last);
        proof {
            let n = before.recent_turns@.len() - 1;
            assert(state.recent_turns@.take(n) =~= before.recent_turns@.take(n));
        }
    }
    (TurnStage::Done, TurnCommand::Finish { state })
}

/// Moves a turn on by one step: given where the turn stands and what the
/// caller reports, the next stage and the next step. An event the stage is
/// not waiting for stops the turn, and so does a search that handed back
/// more evidence than a turn may send: the model is only ever asked with
/// evidence within those bounds.
pub fn advance_turn(stage: TurnStage, event: TurnEvent) -> (r: (TurnStage, TurnCommand))
    ensures
        r.1 is Draft ==> (r.0 matches TurnStage::Drafting { evidence, .. } && evidence_within_bounds(
            evidence@,
        )),
        r.1 matches TurnCommand::Save { scene, evidence, .. } ==> scene@.len() >= 20 && evidence@.len() > 0,
        match (stage, event) {
            (
                TurnStage::Searching { session, book, action, query, next_index },
                TurnEvent::Found { evidence, elapsed_ms },
            ) => if evidence_within_bounds(evidence@) {
                searched_step(session, book, action, query@, next_index, evidence, elapsed_ms, r.0, r.1)
            } else {
                r.0 is Done && r.1 matches TurnCommand::Fail { error: HarnessError::TooMuchEvidence }
            },
            (
                TurnStage::Drafting { session, book, action, evidence, trace, next_index },
                TurnEvent::Drafted { reply, elapsed_ms },
            ) => drafted_step(session, action, evidence, trace@, next_index, reply, r.0, r.1),
            (TurnStage::Saving { session_id }, TurnEvent::Saved { turn }) => saved_step(
                session_id,
                turn,
                r.0,
                r.1,
            ),
            (TurnStage::Loading { commit_trace }, TurnEvent::Loaded { state }) => loaded_step(
                commit_trace,
                state,
                r.0,
                r.1,
            ),
            _ => r.0 is Done && r.1 matches TurnCommand::Fail { error: HarnessError::OutOfOrder },
        },
{
    match (stage, event) {
        (
            TurnStage::Searching { session, book, action, query, next_index },
            TurnEvent::Found { evidence, elapsed_ms },
        ) => if evidence_fits(&evidence) {
            on_found(session, book, action, query, next_index, evidence, elapsed_ms)
        } else {
            (TurnStage::Done, TurnCommand::Fail { error: HarnessError::TooMuchEvidence })
        },
        (
            TurnStage::Drafting { session, book: _, action, evidence, trace, next_index },
            TurnEvent::Drafted { reply, elapsed_ms },
        ) => on_drafted(session, action, evidence, trace, next_index, reply, elapsed_ms),
        (TurnStage::Saving { session_id }, TurnEvent::Saved { turn }) => on_saved(session_id, turn),
        (TurnStage::Loading { commit_trace }, TurnEvent::Loaded { state }) => on_loaded(
            commit_trace,
            state,
        ),
        _ => (TurnStage::Done, TurnCommand::Fail { error: HarnessError::OutOfOrder }),
    }
}

/// A turn is saved only with a scene of at least twenty characters, which
/// is the model's reply without surrounding white space, and only with
/// evidence; a reply with fewer (but some) characters stops the turn as too
/// short.
pub proof fn saved_scenes_are_long_enough(
    session: StorySession,
    action: PlayerAction,
    evidence: Vec<EvidenceSpan>,
    trace: Seq<HarnessEvent>,
    next_index: usize,
    reply: Result<ModelResponse, ModelError>,
    stage: TurnStage,
    cmd: TurnCommand,
)
    requires
        drafted_step(session, action, evidence, trace, next_index, reply, stage, cmd),
    ensures
        cmd matches TurnCommand::Save { scene, evidence: ev, .. } ==> scene@.len() >= 20 && ev@.len() > 0
            && (reply matches Ok(resp) && scene@ == trim(resp.text@)),
        reply matches Ok(resp) && 0 < trim(resp.text@).len() < 20 ==> (cmd matches TurnCommand::Fail {
            error: HarnessError::SceneTooShort,
        } && stage is Done),
{
}

/// A turn that reaches the save records its steps in the order of the
/// harness loop (search, context, draft, continuity check, memory), and its
/// memory and timeline entry carry the number the turn will be saved under.
pub proof fn saved_turn_follows_the_loop(
    session: StorySession,
    book: BookManifest,
    action: PlayerAction,
    query: Seq<char>,
    next_index: usize,
    evidence: Vec<EvidenceSpan>,
    elapsed_ms: u64,
    drafting: TurnStage,
    draft: TurnCommand,
    reply: Result<ModelResponse, ModelError>,
    saving: TurnStage,
    save: TurnCommand,
)
    requires
        searched_step(session, book, action, query, next_index, evidence, elapsed_ms, drafting, draft),
        drafted_step(
            session,
            action,
            evidence,
            drafting->Drafting_trace@,
            next_index,
            reply,
            saving,
            save,
        ),
        save is Save,
    ensures
        save->Save_trace@.len() == 5,
        save->Save_trace@[0].kind == HarnessEventKind::SearchSource,
        save->Save_trace@[1].kind == HarnessEventKind::RetrieveContext,
        save->Save_trace@[2].kind == HarnessEventKind::DraftScene,
        save->Save_trace@[3].kind == HarnessEventKind::ContinuityCheck,
        save->Save_trace@[4].kind == HarnessEventKind::UpdateMemory,
        save->Save_memory.turn_index == next_index,
        save->Save_timeline.turn_index == next_index,
{
    let t = drafting->Drafting_trace@;
    let tr = save->Save_trace@;
    assert(tr[0] == tr.take(2)[0]);
    assert(tr[1] == tr.take(2)[1]);
}

} // verus!
