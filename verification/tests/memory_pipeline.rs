use dragon_li::extraction::{candidate_drafts, classify_candidate, extract_tags, split_sentences, tokenize};
use dragon_li::indexing::{term_stats, IndexField};
use dragon_li::memory::{
    build_markdown, highest_version, next_markdown_version, parse_markdown_version, version_in_name,
    CandidateSnapshot, MemoryError, MemoryPipeline,
};
use dragon_li::recall::{inject_memory, injection_summary, parse_tags_csv, recall_report, select_by_tags};
use dragon_li::review::{
    approve_candidate, candidate_id, create_review_log, merge_candidate, merge_target, parse_review_action,
    reject_candidate, ReviewAction,
};

fn snapshot(id: &str, summary: &str, tags: Vec<&str>) -> CandidateSnapshot {
    CandidateSnapshot {
        id: id.to_string(),
        session_id: "s1".to_string(),
        source_message_id: "m1".to_string(),
        candidate_type: "preference".to_string(),
        summary: summary.to_string(),
        evidence: Some(summary.to_string()),
        tags: tags.into_iter().map(|t| t.to_string()).collect(),
        status: "pending".to_string(),
        created_at: "2026-04-05T10:00:00+08:00".to_string(),
        updated_at: "2026-04-05T10:00:00+08:00".to_string(),
        confidence_text: "0.85".to_string(),
    }
}

#[test]
fn splits_sentences_at_breaks_and_drops_short_ones() {
    let s = split_sentences("我喜欢简洁的代码风格。下一个任务是补齐集成测试。");
    assert_eq!(s, vec!["我喜欢简洁的代码风格".to_string(), "下一个任务是补齐集成测试".to_string()]);
    let s = split_sentences("  short. This one is long enough!\nok?");
    assert_eq!(s, vec!["This one is long enough".to_string()]);
    assert!(split_sentences("   ").is_empty());
}

#[test]
fn tokenizes_words_and_ideographs() {
    assert_eq!(tokenize("代码 风格"), vec!["代", "码", "风", "格"]);
    assert_eq!(tokenize("Hello, World 42x!"), vec!["hello", "world", "42x"]);
    assert!(tokenize("...  --").is_empty());
    assert_eq!(tokenize("Rust和Tauri"), vec!["rust", "和", "tauri"]);
}

#[test]
fn classifies_by_first_matching_rule() {
    assert_eq!(classify_candidate("我喜欢简洁的代码风格"), Some(("preference", 85)));
    assert_eq!(classify_candidate("下一个任务是补齐集成测试"), Some(("task", 76)));
    assert_eq!(classify_candidate("项目里我们使用 Rust 和 Tauri"), Some(("project", 78)));
    assert_eq!(classify_candidate("You MUST keep tests green"), Some(("constraint", 83)));
    assert_eq!(classify_candidate("I PREFER tabs; this project must use them"), Some(("preference", 85)));
    assert_eq!(classify_candidate("We use Rust everywhere"), Some(("fact", 72)));
    assert_eq!(classify_candidate("nothing to remember here"), None);
}

#[test]
fn tags_are_distinct_sized_and_few() {
    assert_eq!(extract_tags("I like Rust and rust a lot"), vec!["like", "rust", "and", "lot"]);
    let tags = extract_tags("我喜欢简洁的代码风格");
    assert_eq!(tags, vec!["我", "喜", "欢", "简", "洁", "的"]);
    let long = "abcdefghijklmnopqrstuvwxyz ok";
    assert_eq!(extract_tags(long), vec!["ok"]);
}

#[test]
fn drafts_follow_sentences_and_stop_at_five() {
    let drafts = candidate_drafts("我喜欢简洁的代码风格。下一个任务是补齐集成测试。");
    assert_eq!(drafts.len(), 2);
    assert_eq!(drafts[0].index, 0);
    assert_eq!(drafts[0].kind, "preference");
    assert_eq!(drafts[0].confidence, 85);
    assert_eq!(drafts[1].index, 1);
    assert_eq!(drafts[1].kind, "task");
    let many = "I prefer tea today. I prefer cake today. I prefer jam today. I prefer milk today. \
                I prefer soup today. I prefer rice today.";
    let drafts = candidate_drafts(many);
    assert_eq!(drafts.len(), 5);
    assert_eq!(drafts[4].sentence, "I prefer soup today");
    assert!(candidate_drafts("").is_empty());
}

#[test]
fn markdown_states_fields_and_version() {
    let c = snapshot("mc_1_0", "我喜欢简洁的代码风格", vec!["代码", "rust"]);
    let md = build_markdown(&c, 3);
    assert_eq!(
        md,
        "---\nid: mc_1_0\nversion: 3\ntype: preference\nstatus: pending\nconfidence: 0.85\nsession_id: s1\n\
         source_message_id: m1\ntags: [\"代码\", \"rust\"]\ncreated_at: 2026-04-05T10:00:00+08:00\n\
         updated_at: 2026-04-05T10:00:00+08:00\n---\n\n我喜欢简洁的代码风格\n\n我喜欢简洁的代码风格\n"
    );
    assert_eq!(parse_markdown_version(&md), 3);
    let no_tags = snapshot("x", "s", vec![]);
    assert!(build_markdown(&no_tags, 1).contains("tags: []\n"));
}

#[test]
fn markdown_version_defaults_to_one() {
    assert_eq!(parse_markdown_version("no front matter"), 1);
    assert_eq!(parse_markdown_version("version: abc\nversion:  12 \r\n"), 12);
    assert_eq!(parse_markdown_version("version: 99999999999999999999999\n"), 1);
}

#[test]
fn version_names_give_next_version() {
    let names = vec![
        "m1.v1.md".to_string(),
        "m1.v7.md".to_string(),
        "m1.v3.md".to_string(),
        "m10.v9.md".to_string(),
        "m1.vx.md".to_string(),
        "m1.v2.txt".to_string(),
    ];
    assert_eq!(version_in_name("m1", "m1.v7.md"), Some(7));
    assert_eq!(version_in_name("m1", "m10.v9.md"), None);
    assert_eq!(highest_version("m1", &names), 7);
    assert_eq!(next_markdown_version("m1", &names), 8);
    assert_eq!(next_markdown_version("m2", &names), 1);
}

#[test]
fn pipeline_paths_follow_runtime_root() {
    let p = MemoryPipeline::new("/home/u/.dragon-li".to_string(), "/home/u/.dragon-li/data/dragon_li.db".to_string());
    assert_eq!(p.memory_file_path("m1"), "/home/u/.dragon-li/memory/long_term/m1.md");
    assert_eq!(p.memory_version_file_path("m1", 2), "/home/u/.dragon-li/memory/long_term/versions/m1.v2.md");
    assert_eq!(p.versions_dir(), "/home/u/.dragon-li/memory/long_term/versions");
    assert_eq!(p.db_path(), "/home/u/.dragon-li/data/dragon_li.db");
}

#[test]
fn review_actions_are_read_without_case() {
    assert_eq!(parse_review_action("APPROVE").ok(), Some(ReviewAction::Approve));
    assert_eq!(parse_review_action("Reject").ok(), Some(ReviewAction::Reject));
    assert_eq!(parse_review_action("merge").ok(), Some(ReviewAction::Merge));
    match parse_review_action("delete") {
        Err(MemoryError::InvalidRequest(m)) => assert_eq!(m, "action must be approve/reject/merge"),
        other => panic!("unexpected {:?}", other.map(|_| ())),
    }
}

#[test]
fn reject_flow_updates_status() {
    let drafts = candidate_drafts("项目里我们使用 Rust 和 Tauri。");
    assert!(!drafts.is_empty());
    let c = snapshot(&candidate_id(5, drafts[0].index), &drafts[0].sentence, vec![]);
    let rejected = reject_candidate(c, "2026-04-06T00:00:00+08:00");
    assert_eq!(rejected.status, "rejected");
    assert_eq!(rejected.updated_at, "2026-04-06T00:00:00+08:00");
    assert_eq!(rejected.id, "mc_5_0");
}

#[test]
fn merge_creates_next_markdown_version() {
    let drafts = candidate_drafts("我喜欢稳定的工程流程和版本化记录。");
    let id = candidate_id(1, drafts[0].index);
    let c = snapshot(&id, &drafts[0].sentence, vec![]);
    let v1 = next_markdown_version(&id, &vec![]);
    let (first_md, approved) = approve_candidate(c, v1, "t1");
    assert!(first_md.contains("version: 1"));
    assert_eq!(approved.status, "approved");

    let pipeline = MemoryPipeline::new("/r/.dragon-li".to_string(), "/r/.dragon-li/data/dragon_li.db".to_string());
    let v1_path = pipeline.memory_version_file_path(&id, parse_markdown_version(&first_md));
    let v1_name = v1_path.rsplit('/').next().unwrap().to_string();

    let target_id = merge_target(&id, None);
    assert_eq!(target_id, id);
    let v2 = next_markdown_version(&target_id, &vec![v1_name]);
    let source = approved.clone();
    let (merged_md, merged) = merge_candidate(&source, approved, v2, "t2");
    assert_eq!(merged.status, "conflicted");
    assert!(merged_md.contains("version: 2"));
    assert_eq!(
        pipeline.memory_version_file_path(&merged.id, 1),
        format!("/r/.dragon-li/memory/long_term/versions/{}.v1.md", merged.id)
    );
    assert_eq!(
        pipeline.memory_version_file_path(&merged.id, parse_markdown_version(&merged_md)),
        format!("/r/.dragon-li/memory/long_term/versions/{}.v2.md", merged.id)
    );
}

#[test]
fn merge_into_other_memory_takes_source_content() {
    let target = snapshot("mem_a", "old summary", vec!["old"]);
    let source = snapshot("mem_b", "new summary", vec!["new"]);
    assert_eq!(merge_target("mem_b", Some("mem_a".to_string())), "mem_a");
    let (md, merged) = merge_candidate(&source, target, 4, "now");
    assert_eq!(merged.id, "mem_a");
    assert_eq!(merged.summary, "new summary");
    assert_eq!(merged.tags, vec!["new".to_string()]);
    assert_eq!(merged.updated_at, "now");
    assert!(md.starts_with("---\nid: mem_b\nversion: 4\n"));
}

#[test]
fn review_logs_name_the_candidate() {
    let ok = create_review_log("mc_1", "s1", None, 9, "t".to_string());
    assert_eq!(ok.id, "log_memory_review_ok_9");
    assert_eq!(ok.request_id, "memory_review_mc_1");
    assert_eq!(ok.status, "ok");
    assert_eq!(ok.session_id.as_deref(), Some("s1"));
    let no_session = create_review_log("mc_1", "", None, 9, "t".to_string());
    assert_eq!(no_session.session_id, None);
    let failed = create_review_log("mc_1", "s1", Some("DB_BUSY".to_string()), 9, "t".to_string());
    assert_eq!(failed.id, "log_memory_review_err_9");
    assert_eq!(failed.status, "failed");
    assert_eq!(failed.session_id, None);
    assert_eq!(failed.error_code.as_deref(), Some("DB_BUSY"));
}

#[test]
fn index_terms_count_per_field() {
    let mut c = snapshot("m", "Rust rust 代码", vec!["Rust", "ui"]);
    c.evidence = Some("rust".to_string());
    let stats = term_stats(&c);
    let view: Vec<(String, IndexField, usize, u32)> =
        stats.into_iter().map(|s| (s.term, s.field, s.tf, s.weight_tenths)).collect();
    assert_eq!(
        view,
        vec![
            ("rust".to_string(), IndexField::Summary, 2, 13),
            ("代".to_string(), IndexField::Summary, 1, 13),
            ("码".to_string(), IndexField::Summary, 1, 13),
            ("rust".to_string(), IndexField::Tags, 1, 15),
            ("ui".to_string(), IndexField::Tags, 1, 15),
            ("preference".to_string(), IndexField::Type, 1, 10),
            ("rust".to_string(), IndexField::Evidence, 1, 8),
        ]
    );
    assert_eq!(IndexField::Evidence.as_str(), "evidence");
}

#[test]
fn long_term_items_are_narrowed_by_tags() {
    let items = vec![
        vec!["Rust".to_string(), "UI".to_string()],
        vec!["rust".to_string()],
        vec!["ui".to_string(), "RUST".to_string(), "x".to_string()],
        vec![],
    ];
    assert_eq!(select_by_tags(&items, &vec![" rust ".to_string(), "Ui".to_string()], 10), vec![0, 2]);
    assert_eq!(select_by_tags(&items, &vec!["rust".to_string()], 2), vec![0, 1]);
    assert_eq!(select_by_tags(&items, &vec![], 3), vec![0, 1, 2]);
    assert_eq!(parse_tags_csv(" rust, ,UI ,"), vec!["rust".to_string(), "UI".to_string()]);
    assert!(parse_tags_csv("").is_empty());
}

#[test]
fn recalled_memories_join_the_memory_layer() {
    let refs = vec![
        ("m1".to_string(), "likes tea".to_string()),
        ("m2".to_string(), "uses rust".to_string()),
    ];
    assert_eq!(
        inject_memory("  earlier notes \n", &refs),
        "earlier notes\n\nInjected memory context (top 3):\n- [m1] likes tea\n- [m2] uses rust"
    );
    assert_eq!(inject_memory("   ", &refs), "Injected memory context (top 3):\n- [m1] likes tea\n- [m2] uses rust");
    assert_eq!(inject_memory("keep", &vec![]), "keep");
    assert_eq!(injection_summary("  ", "---\r\nid: m1\n"), "---");
    assert_eq!(injection_summary("tea", "---\n"), "tea");
}

#[test]
fn recall_takes_top_three_readable_hits() {
    let hits = vec![
        ("m1".to_string(), Ok(("likes tea".to_string(), "---\n".to_string()))),
        ("m2".to_string(), Err("MEMORY_FILE_READ_FAILED: gone".to_string())),
        ("m3".to_string(), Ok(("  ".to_string(), "first line\nsecond".to_string()))),
        ("m4".to_string(), Ok(("ignored".to_string(), String::new()))),
    ];
    let r = recall_report("notes", Ok(hits));
    assert_eq!(r.items, vec![("m1".to_string(), "likes tea".to_string()), ("m3".to_string(), "first line".to_string())]);
    assert_eq!(r.read, vec![0, 2]);
    assert_eq!(r.error_code, None);
    assert_eq!(r.memory, "notes\n\nInjected memory context (top 3):\n- [m1] likes tea\n- [m3] first line");

    let failed = recall_report("notes", Ok(vec![("m2".to_string(), Err("MEMORY_FILE_READ_FAILED: gone".to_string()))]));
    assert!(failed.items.is_empty());
    assert_eq!(failed.error_code.as_deref(), Some("MEMORY_FILE_READ_FAILED"));
    assert_eq!(failed.error_message.as_deref(), Some("MEMORY_FILE_READ_FAILED: gone"));
    assert_eq!(failed.memory, "notes");

    let search_failed = recall_report("notes", Err("DB_READ_FAILED: no table".to_string()));
    assert_eq!(search_failed.error_code.as_deref(), Some("DB_READ_FAILED"));
    assert_eq!(search_failed.memory, "notes");

    let nothing = recall_report("notes", Ok(vec![]));
    assert_eq!(nothing.error_code, None);
    assert_eq!(nothing.memory, "notes");
}

#[test]
fn extract_review_and_query_index() {
    let drafts = candidate_drafts("我喜欢简洁的代码风格。下一个任务是补齐集成测试。");
    assert!(!drafts.is_empty());
    let id = candidate_id(123, drafts[0].index);
    let mut c = snapshot(&id, &drafts[0].sentence, drafts[0].tags.iter().map(|t| t.as_str()).collect());
    c.candidate_type = drafts[0].kind.clone();
    let (markdown, approved) = approve_candidate(c, next_markdown_version(&id, &vec![]), "t");
    assert_eq!(approved.status, "approved");
    assert!(markdown.contains("---"));
    assert!(markdown.contains("version: 1"));
    assert!(markdown.contains(&approved.id));

    // The index entries of the approved memory hold the terms of the query.
    let indexed: Vec<String> = term_stats(&approved).into_iter().map(|s| s.term).collect();
    let query_terms = tokenize("代码 风格");
    assert!(query_terms.iter().any(|t| indexed.contains(t)));
}
