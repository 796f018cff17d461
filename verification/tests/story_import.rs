use vellum::import::{
    choose_title, chunk_units, next_job, ImportEvent, epub_entry_units, is_text_extension, prepare_book, source_format,
    split_text_into_units, stage_progress, text_file_units, units_fit, ImportError, ImportStage,
    Patterns, SourceFormat, TextUnit, CHUNK_TARGET_CHARS,
};
use vellum::records::{status_from_str, status_to_str, BookSource, ImportJob, ImportStatus};

fn sample_text() -> String {
    [
        "第一章 初入京城\n林晚推开雨中的朱门，看见沈砚站在廊下。她知道原文里今晚会有刺客潜入。\n",
        "第二章 夜宴风波\n夜宴上，贵妃提起旧案，沈砚神色微冷。林晚决定先提醒他小心酒盏。\n",
        "第三章 暗线浮出\n刺客留下半枚玉佩，牵出城南旧宅。林晚必须在天亮前做出选择。\n",
    ]
    .join("")
    .repeat(60)
}

fn patterns() -> Patterns {
    Patterns::compile().expect("patterns compile")
}

#[test]
fn splits_chapters_once_enough_text_gathered() {
    let p = patterns();
    let units = split_text_into_units(&sample_text(), "sample", &p);
    assert!(units.len() > 1);
    for u in &units {
        assert!(u.title.starts_with('第'));
        assert!(!u.text.trim().is_empty());
    }
}

#[test]
fn short_text_keeps_fallback_title_until_heading() {
    let p = patterns();
    let units = split_text_into_units("前言一行\n第一章 开始\n正文\n", "书名", &p);
    assert_eq!(units.len(), 1);
    assert_eq!(units[0].title, "第一章 开始");
    assert_eq!(units[0].text, "前言一行\n第一章 开始\n正文");
    let units = split_text_into_units("只有正文", "书名", &p);
    assert_eq!(units.len(), 1);
    assert_eq!(units[0].title, "书名");
    let units = split_text_into_units(" \n\t\n", "书名", &p);
    assert!(units.is_empty());
}

#[test]
fn markdown_heading_titles_lose_hashes() {
    let p = patterns();
    let body = "字".repeat(130);
    let text = format!("{body}\n## 第二部分 \n后文\n");
    let units = split_text_into_units(&text, "开头", &p);
    assert_eq!(units.len(), 2);
    assert_eq!(units[0].title, "开头");
    assert_eq!(units[0].text, body);
    assert_eq!(units[1].title, "第二部分");
    assert_eq!(units[1].text, "后文");
}

#[test]
fn chunks_cover_units_with_separators() {
    let units = vec![
        TextUnit { title: "一".to_string(), text: "abcdefg".to_string() },
        TextUnit { title: "二".to_string(), text: "  xy  ".to_string() },
    ];
    assert!(units_fit(&units));
    let chunks = chunk_units(&units, 3);
    let got: Vec<(String, usize, usize, String)> = chunks
        .iter()
        .map(|c| (c.chapter_title.clone(), c.start_char, c.end_char, c.text.clone()))
        .collect();
    assert_eq!(
        got,
        vec![
            ("一".to_string(), 0, 3, "abc".to_string()),
            ("一".to_string(), 3, 6, "def".to_string()),
            ("一".to_string(), 6, 7, "g".to_string()),
            ("二".to_string(), 8, 11, "x".to_string()),
            ("二".to_string(), 11, 14, "y".to_string()),
        ]
    );
    let ones = chunk_units(&units[..1].to_vec(), 0);
    assert_eq!(ones.len(), 7);
    assert_eq!(ones[6].end_char, 7);
}

#[test]
fn blank_tail_gives_no_chunk() {
    let units = vec![TextUnit { title: "t".to_string(), text: "abc  ".to_string() }];
    let chunks = chunk_units(&units, 3);
    assert_eq!(chunks.len(), 1);
    assert_eq!(chunks[0].end_char, 3);
    let units = vec![TextUnit { title: "t".to_string(), text: "abc   ".to_string() }];
    let chunks = chunk_units(&units, 3);
    assert_eq!(chunks.len(), 2);
    assert_eq!(chunks[1].text, "");
}

#[test]
fn source_formats_by_extension() {
    assert_eq!(source_format(true, &None).unwrap(), SourceFormat::Folder);
    assert_eq!(source_format(false, &Some("TXT".to_string())).unwrap(), SourceFormat::TextFile);
    assert_eq!(source_format(false, &Some("md".to_string())).unwrap(), SourceFormat::TextFile);
    assert_eq!(source_format(false, &Some("EPub".to_string())).unwrap(), SourceFormat::Epub);
    match source_format(false, &Some("PDF".to_string())) {
        Err(e @ ImportError::UnsupportedType(_)) => {
            assert_eq!(e.message(), "暂不支持该文件类型：pdf。请使用 txt、md、无 DRM epub 或章节文件夹");
        }
        other => panic!("unexpected {other:?}"),
    }
    match source_format(false, &None) {
        Err(ImportError::UnsupportedType(ext)) => assert_eq!(ext, ""),
        other => panic!("unexpected {other:?}"),
    }
    assert!(is_text_extension(&Some("Md".to_string())));
    assert!(!is_text_extension(&Some("epub".to_string())));
    assert!(!is_text_extension(&None));
}

#[test]
fn titles_prefer_given_then_stem() {
    assert_eq!(choose_title(&Some("测试长篇".to_string()), &Some("sample".to_string())), "测试长篇");
    assert_eq!(choose_title(&Some("  ".to_string()), &Some("sample".to_string())), "sample");
    assert_eq!(choose_title(&None, &None), "未命名小说");
}

#[test]
fn text_file_fallback_title() {
    let p = patterns();
    let units = text_file_units("正文一句", &None, &p);
    assert_eq!(units[0].title, "正文");
    let units = text_file_units("正文一句", &Some("ch01".to_string()), &p);
    assert_eq!(units[0].title, "ch01");
}

#[test]
fn epub_entries_strip_tags_and_name_units() {
    let p = patterns();
    let html = "<html><body><p>沈砚站在廊下。</p></body></html>";
    let units = epub_entry_units("OEBPS/Ch1.XHTML", html, &Some("Ch1".to_string()), 2, &p).unwrap();
    assert_eq!(units.len(), 1);
    assert_eq!(units[0].title, "ch1");
    assert_eq!(units[0].text, "沈砚站在廊下。");
    let units = epub_entry_units("notes.txt", "<b>保留</b>", &None, 3, &p).unwrap();
    assert_eq!(units[0].title, "epub-3");
    assert_eq!(units[0].text, "<b>保留</b>");
    assert!(epub_entry_units("cover.jpg", "x", &None, 0, &p).is_none());
}

#[test]
fn prepare_book_builds_manifest() {
    let p = patterns();
    let units = split_text_into_units(&sample_text(), "sample", &p);
    let source = BookSource { path: "/tmp/sample.txt".to_string(), title: Some("测试长篇".to_string()) };
    let book = prepare_book(&units, &source, &Some("sample".to_string()), "2024-01-01T00:00:00+00:00".to_string()).unwrap();
    assert_eq!(book.manifest.title, "测试长篇");
    assert_eq!(book.manifest.source_path, "/tmp/sample.txt");
    assert_eq!(book.manifest.chapter_count, units.len());
    assert_eq!(book.manifest.chunk_count, book.chunks.len());
    assert_eq!(book.manifest.char_count, book.chunks.last().unwrap().end_char);
    assert_eq!(book.manifest.status, ImportStatus::Completed);
    assert_eq!(book.manifest.id.len(), 36);
    assert!(matches!(prepare_book(&Vec::new(), &source, &None, String::new()), Err(ImportError::NoText)));
    let blank = vec![TextUnit { title: "t".to_string(), text: " ".to_string() }];
    match prepare_book(&blank, &source, &None, String::new()) {
        Err(e @ ImportError::TooShort) => assert_eq!(e.message(), "正文太短或无法分片"),
        other => panic!("unexpected {other:?}"),
    }
}

#[test]
fn scale_split_and_chunk_two_million_chars() {
    let body = "主角进入城中，发现线索与玉佩、酒盏、暗巷、旧宅有关。".repeat(80);
    let paragraph = format!("第一章 测试\n{body}\n");
    let mut text = String::new();
    while text.chars().count() < 2_020_000 {
        text.push_str(&paragraph);
    }
    let p = patterns();
    let units = split_text_into_units(&text, "big", &p);
    let source = BookSource { path: "big.txt".to_string(), title: Some("百万字测试".to_string()) };
    let book = prepare_book(&units, &source, &None, String::new()).unwrap();
    assert!(book.manifest.char_count >= 2_000_000, "char_count={}", book.manifest.char_count);
    assert!(book.manifest.chunk_count >= 400);
    assert!(book.chunks.iter().all(|c| c.end_char - c.start_char <= CHUNK_TARGET_CHARS));
}

#[test]
fn import_job_transitions_report_progress() {
    let job = ImportJob::start();
    assert_eq!(job.status, ImportStatus::Queued);
    assert_eq!(job.progress_permille, 0);
    assert_eq!(job.message, "等待导入");
    let running = job.running();
    assert_eq!(running.status, ImportStatus::Running);
    assert_eq!(running.progress_permille, 50);
    assert_eq!(running.id, job.id);
    let done = running.completed("book-1".to_string());
    assert_eq!(done.status, ImportStatus::Completed);
    assert_eq!(done.progress_permille, 1000);
    assert_eq!(done.book_id.as_deref(), Some("book-1"));
    assert_eq!(done.created_at, job.created_at);
    let failed = running.failed("坏了".to_string());
    assert_eq!(failed.status, ImportStatus::Failed);
    assert!(failed.book_id.is_none());
    assert_eq!(stage_progress(ImportStage::Splitting), (150, "正在分章和分片".to_string()));
    assert_eq!(stage_progress(ImportStage::Indexing), (450, "正在建立本地检索索引".to_string()));
}

#[test]
fn status_names_round_trip() {
    for s in [ImportStatus::Queued, ImportStatus::Running, ImportStatus::Completed, ImportStatus::Failed] {
        assert_eq!(status_from_str(status_to_str(&s)), s);
    }
    assert_eq!(status_to_str(&ImportStatus::Running), "running");
    assert_eq!(status_from_str("unknown"), ImportStatus::Completed);
}

#[test]
fn import_job_steps_only_forward() {
    let queued = ImportJob::start();
    assert!(next_job(&queued, ImportEvent::Reached(ImportStage::Splitting)).is_none());
    assert!(next_job(&queued, ImportEvent::Finished("b".to_string())).is_none());
    assert!(next_job(&queued, ImportEvent::Aborted("x".to_string())).is_none());
    let running = next_job(&queued, ImportEvent::Begin).unwrap();
    assert_eq!(running.status, ImportStatus::Running);
    assert_eq!(running.progress_permille, 50);
    assert_eq!(running.message, "正在读取小说");
    assert!(next_job(&running, ImportEvent::Finished("b".to_string())).is_none());
    let splitting = next_job(&running, ImportEvent::Reached(ImportStage::Splitting)).unwrap();
    assert_eq!(splitting.progress_permille, 150);
    assert_eq!(splitting.message, "正在分章和分片");
    let indexing = next_job(&splitting, ImportEvent::Reached(ImportStage::Indexing)).unwrap();
    assert_eq!(indexing.progress_permille, 450);
    assert_eq!(indexing.message, "正在建立本地检索索引");
    assert!(next_job(&indexing, ImportEvent::Reached(ImportStage::Splitting)).is_none());
    let done = next_job(&indexing, ImportEvent::Finished("book-9".to_string())).unwrap();
    assert_eq!(done.status, ImportStatus::Completed);
    assert_eq!(done.progress_permille, 1000);
    assert_eq!(done.book_id.as_deref(), Some("book-9"));
    assert_eq!(done.id, queued.id);
    assert_eq!(done.created_at, queued.created_at);
    assert!(next_job(&done, ImportEvent::Aborted("x".to_string())).is_none());
    let failed = next_job(&splitting, ImportEvent::Aborted("没有读到可导入的正文".to_string())).unwrap();
    assert_eq!(failed.status, ImportStatus::Failed);
    assert_eq!(failed.progress_permille, 1000);
    assert_eq!(failed.message, "没有读到可导入的正文");
    assert!(failed.book_id.is_none());
}

#[test]
fn job_timestamps_are_utc_rfc3339() {
    let stamp = ImportJob::start().created_at;
    let c: Vec<char> = stamp.chars().collect();
    assert!(stamp.ends_with("+00:00"));
    assert!(c.len() >= 25);
    assert!(c[..4].iter().all(|d| d.is_ascii_digit()));
    assert_eq!((c[4], c[7], c[10], c[13], c[16]), ('-', '-', 'T', ':', ':'));
    let fraction = c.len() - 25;
    assert!([0, 4, 7, 10].contains(&fraction));
    if fraction > 0 {
        assert_eq!(c[19], '.');
    }
}
