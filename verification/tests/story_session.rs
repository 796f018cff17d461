use vellum::harness::{
    action_label, advance_turn, begin_turn, build_context, build_retrieval_query, build_scene_prompt,
    continuity_check, normalize_scene, opening_query, opening_scene, HarnessError, PlaythroughState,
    TurnCommand, TurnEvent, TurnStage,
};
use vellum::model::{ModelError, ModelResponse};
use vellum::records::{
    BookManifest, ChunkRef, EvidenceSpan, HarnessEventKind, ImportStatus, PlayerAction,
    PlayerActionKind, PlayerIdentity, StorySession, StoryTurn, WorldState,
};
use vellum::session::{
    chronological, concat_traces, new_session, new_turn, plan_rollback, SceneSource, SessionError,
};
use vellum::harness::event_with_tool;

fn identity() -> PlayerIdentity {
    PlayerIdentity {
        name: "林晚".to_string(),
        role: "穿书者".to_string(),
        goal: "救下沈砚".to_string(),
        tone: "冷静".to_string(),
    }
}

fn book() -> BookManifest {
    BookManifest {
        id: "book-1".to_string(),
        title: "夜雨长篇".to_string(),
        source_path: "book.txt".to_string(),
        chapter_count: 1,
        chunk_count: 1,
        char_count: 10,
        status: ImportStatus::Completed,
        created_at: String::new(),
    }
}

fn span(title: &str, text: &str) -> EvidenceSpan {
    EvidenceSpan {
        chunk: ChunkRef {
            book_id: "book-1".to_string(),
            chunk_index: 0,
            chapter_title: title.to_string(),
            start_char: 0,
            end_char: 10,
            preview: text.to_string(),
            score: 1,
        },
        text: text.to_string(),
    }
}

fn act(text: &str) -> PlayerAction {
    PlayerAction { kind: PlayerActionKind::Act, text: text.to_string() }
}

#[test]
fn new_session_starts_empty() {
    let s = new_session("book-1".to_string(), identity(), "你站在雨中的朱门前。".to_string());
    assert_eq!(s.turn_count, 0);
    assert_eq!(s.id.len(), 36);
    assert!(s.world.memories.is_empty() && s.world.timeline.is_empty());
    assert_eq!(s.current_scene, "你站在雨中的朱门前。");
}

#[test]
fn saves_number_turns_and_rollbacks_undo_them() {
    let t = new_turn("s1".to_string(), 0, act("提醒沈砚小心酒盏"), "场景".to_string(), Vec::new(), Vec::new());
    assert_eq!(t.turn_index, 1);
    let plan = plan_rollback("s1", &t).unwrap();
    assert_eq!(plan.from_index, 1);
    assert_eq!(plan.keep_before, 0);
    match plan.restore {
        SceneSource::Opening(s) => assert_eq!(s, "你回到了刚穿入故事的那一刻。"),
        other => panic!("unexpected {other:?}"),
    }
    let t3 = new_turn("s1".to_string(), 2, act("x"), "场景".to_string(), Vec::new(), Vec::new());
    let plan = plan_rollback("s1", &t3).unwrap();
    assert_eq!(plan.keep_before, 2);
    assert!(matches!(plan.restore, SceneSource::TurnScene(2)));
    let err = plan_rollback("other", &t3).unwrap_err();
    assert_eq!(err, SessionError::TurnNotInSession);
    assert_eq!(err.message(), "turn does not belong to session");
}

fn turn(index: usize, kinds: &[HarnessEventKind]) -> StoryTurn {
    let trace = kinds
        .iter()
        .map(|k| event_with_tool(*k, "t".into(), "d".into(), "n".into(), "i".into(), "o".into(), 0))
        .collect();
    let mut t = new_turn("s1".to_string(), index - 1, act("x"), format!("场景{index}"), Vec::new(), trace);
    t.turn_index = index;
    t
}

#[test]
fn latest_turns_come_back_in_play_order() {
    let newest_first = vec![turn(3, &[]), turn(2, &[]), turn(1, &[])];
    let ordered = chronological(newest_first);
    let idx: Vec<usize> = ordered.iter().map(|t| t.turn_index).collect();
    assert_eq!(idx, vec![1, 2, 3]);
}

#[test]
fn trace_joins_turn_traces_in_order() {
    let turns = vec![
        turn(1, &[HarnessEventKind::SearchSource, HarnessEventKind::DraftScene]),
        turn(2, &[]),
        turn(3, &[HarnessEventKind::CommitTurn]),
    ];
    let trace = concat_traces(turns);
    let kinds: Vec<HarnessEventKind> = trace.iter().map(|e| e.kind).collect();
    assert_eq!(
        kinds,
        vec![HarnessEventKind::SearchSource, HarnessEventKind::DraftScene, HarnessEventKind::CommitTurn]
    );
}

fn session() -> StorySession {
    StorySession {
        id: "s1".to_string(),
        book_id: "book-1".to_string(),
        identity: identity(),
        current_scene: "雨夜".to_string(),
        turn_count: 0,
        world: WorldState { memories: Vec::new(), timeline: Vec::new() },
        updated_at: String::new(),
    }
}

#[test]
fn texts_of_a_turn() {
    assert_eq!(build_retrieval_query(&session(), &act("提醒")), "林晚 穿书者 救下沈砚 雨夜 提醒");
    assert_eq!(opening_query(&identity()), "林晚 救下沈砚");
    assert_eq!(
        opening_scene(&book(), &identity(), &Vec::new()),
        "你穿进《夜雨长篇》，成为「林晚」。\n\n当前身份：穿书者。\n目标：救下沈砚。\n\n你先记住眼前最重要的原文线索：原文索引已经准备好。"
    );
    let ev = vec![span("第一章", "沈砚站在廊下"), span("第二章", "酒盏旁有银针")];
    assert_eq!(build_context(&ev), "[片段1｜第一章] 沈砚站在廊下\n\n[片段2｜第二章] 酒盏旁有银针");
    assert_eq!(build_context(&Vec::new()), "");
    let prompt = build_scene_prompt(&book(), &session(), &act("提醒"), "CTX");
    assert_eq!(
        prompt,
        "小说：夜雨长篇\n玩家身份：林晚 / 穿书者\n玩家目标：救下沈砚\n当前场景：\n雨夜\n\n原文依据：\nCTX\n\n玩家动作类型：做动作\n玩家动作：提醒\n\n请输出下一段当前场景，要求：\n1. 用户读起来像自然穿书剧情，不暴露工具、模型、索引、token 等技术词。\n2. 必须尊重原文依据，不要突然改变主线设定。\n3. 结尾留一个自然选择空间，不要替玩家做完所有决定。\n"
    );
    assert_eq!(action_label(&act("  提醒   沈砚 ")), "做动作: 提醒 沈砚");
}

#[test]
fn scenes_are_checked() {
    assert!(matches!(normalize_scene(" \n "), Err(HarnessError::EmptyScene)));
    assert_eq!(normalize_scene("  场景  ").unwrap(), "场景");
    let ev = vec![span("c", "t")];
    assert!(matches!(continuity_check("太短", &ev), Err(HarnessError::SceneTooShort)));
    let long = "长".repeat(20);
    assert!(matches!(continuity_check(&long, &Vec::new()), Err(HarnessError::NoEvidence)));
    assert!(continuity_check(&long, &ev).is_ok());
    assert_eq!(HarnessError::NoEvidence.message(), "没有找到原文依据，已停止本回合");
}

#[test]
fn full_turn_through_the_state_machine() {
    let (stage, cmd) = begin_turn(session(), book(), act("提醒沈砚不要碰酒盏"));
    match &cmd {
        TurnCommand::Search { book_id, query, limit } => {
            assert_eq!(book_id, "book-1");
            assert_eq!(query, "林晚 穿书者 救下沈砚 雨夜 提醒沈砚不要碰酒盏");
            assert_eq!(*limit, 4);
        }
        other => panic!("unexpected {other:?}"),
    }
    let evidence = vec![span("第一章", "沈砚站在廊下，酒盏旁有银针。")];
    let (stage, cmd) = advance_turn(stage, TurnEvent::Found { evidence, elapsed_ms: 3 });
    let request = match cmd {
        TurnCommand::Draft { request } => request,
        other => panic!("unexpected {other:?}"),
    };
    assert_eq!(request.max_output_chars, 1200);
    assert!(request.prompt.contains("[片段1｜第一章] 沈砚站在廊下，酒盏旁有银针。"));
    let scene = "你压低声音提醒沈砚，酒盏旁的银针泛起暗光，他终于停下了手。".to_string();
    let reply = Ok(ModelResponse { text: format!("  {scene}\n") });
    let (stage, cmd) = advance_turn(stage, TurnEvent::Drafted { reply, elapsed_ms: 9 });
    let (action, saved_scene, evidence, trace, memory, timeline) = match cmd {
        TurnCommand::Save { session_id, action, scene, evidence, trace, memory, timeline } => {
            assert_eq!(session_id, "s1");
            (action, scene, evidence, trace, memory, timeline)
        }
        other => panic!("unexpected {other:?}"),
    };
    assert_eq!(saved_scene, scene);
    let kinds: Vec<HarnessEventKind> = trace.iter().map(|e| e.kind).collect();
    assert_eq!(
        kinds,
        vec![
            HarnessEventKind::SearchSource,
            HarnessEventKind::RetrieveContext,
            HarnessEventKind::DraftScene,
            HarnessEventKind::ContinuityCheck,
            HarnessEventKind::UpdateMemory,
        ]
    );
    assert_eq!(trace[0].detail, "从《夜雨长篇》里找和本回合最相关的片段");
    assert_eq!(trace[0].tool.as_ref().unwrap().output_summary, "命中 1 个片段");
    assert_eq!(trace[0].tool.as_ref().unwrap().duration_ms, 3);
    assert_eq!(trace[4].detail, "做过的事：提醒沈砚不要碰酒盏");
    assert_eq!(memory.label, "做过的事");
    assert_eq!(memory.turn_index, 1);
    assert_eq!(timeline.title, "第 1 回合");
    assert_eq!(timeline.turn_index, 1);
    let stored = new_turn("s1".to_string(), 0, action, saved_scene, evidence, trace);
    let (stage, cmd) = advance_turn(stage, TurnEvent::Saved { turn: stored });
    let last_evidence = match cmd {
        TurnCommand::Load { session_id, evidence } => {
            assert_eq!(session_id, "s1");
            evidence
        }
        other => panic!("unexpected {other:?}"),
    };
    let mut s = session();
    s.turn_count = 1;
    let shown = new_turn("s1".to_string(), 0, act("提醒"), scene.clone(), Vec::new(), Vec::new());
    let state = PlaythroughState { book: book(), session: s, recent_turns: vec![shown], last_evidence };
    let (stage, cmd) = advance_turn(stage, TurnEvent::Loaded { state });
    assert!(matches!(stage, TurnStage::Done));
    match cmd {
        TurnCommand::Finish { state } => {
            assert_eq!(state.session.turn_count, 1);
            assert!(!state.last_evidence.is_empty());
            let last = state.recent_turns.last().unwrap();
            assert_eq!(last.trace.len(), 6);
            assert_eq!(last.trace[5].kind, HarnessEventKind::CommitTurn);
            assert_eq!(last.trace[5].detail, "第 1 回合已保存");
        }
        other => panic!("unexpected {other:?}"),
    }
}

#[test]
fn failing_turns_stop() {
    let (stage, _) = begin_turn(session(), book(), act("x"));
    let (stage, _) = advance_turn(stage, TurnEvent::Found { evidence: Vec::new(), elapsed_ms: 0 });
    let long = "长".repeat(30);
    let (stage, cmd) = advance_turn(stage, TurnEvent::Drafted { reply: Ok(ModelResponse { text: long }), elapsed_ms: 0 });
    assert!(matches!(stage, TurnStage::Done));
    assert!(matches!(cmd, TurnCommand::Fail { error: HarnessError::NoEvidence }));
    let (stage, _) = begin_turn(session(), book(), act("x"));
    let (stage, _) = advance_turn(stage, TurnEvent::Found { evidence: vec![span("c", "t")], elapsed_ms: 0 });
    let (_, cmd) = advance_turn(
        stage,
        TurnEvent::Drafted { reply: Err(ModelError::Failed("断线".to_string())), elapsed_ms: 0 },
    );
    match cmd {
        TurnCommand::Fail { error } => assert_eq!(error.message(), "断线"),
        other => panic!("unexpected {other:?}"),
    }
    let (stage, _) = begin_turn(session(), book(), act("x"));
    let (_, cmd) = advance_turn(stage, TurnEvent::Drafted { reply: Ok(ModelResponse { text: String::new() }), elapsed_ms: 0 });
    assert!(matches!(cmd, TurnCommand::Fail { error: HarnessError::OutOfOrder }));
}

#[test]
fn oversized_evidence_is_not_sent() {
    let (stage, _) = begin_turn(session(), book(), act("x"));
    let five = vec![span("c", "t"); 5];
    let (stage, cmd) = advance_turn(stage, TurnEvent::Found { evidence: five, elapsed_ms: 0 });
    assert!(matches!(stage, TurnStage::Done));
    assert!(matches!(cmd, TurnCommand::Fail { error: HarnessError::TooMuchEvidence }));
    let (stage, _) = begin_turn(session(), book(), act("x"));
    let long = span("c", &"字".repeat(901));
    let (_, cmd) = advance_turn(stage, TurnEvent::Found { evidence: vec![long], elapsed_ms: 0 });
    assert!(matches!(cmd, TurnCommand::Fail { error: HarnessError::TooMuchEvidence }));
    let (stage, _) = begin_turn(session(), book(), act("x"));
    let four = vec![span("c", &"字".repeat(900)); 4];
    let (_, cmd) = advance_turn(stage, TurnEvent::Found { evidence: four, elapsed_ms: 0 });
    assert!(matches!(cmd, TurnCommand::Draft { .. }));
    assert_eq!(HarnessError::TooMuchEvidence.message(), "原文片段超出本回合上限");
}
