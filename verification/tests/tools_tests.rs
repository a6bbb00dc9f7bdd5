use knowledge_agent::tools::{
    list_notes, match_limit, neighbor_notes, new_note_path, note_identities, prepare_index_entry,
    propose_note_update, read_note, search_notes, tool_markdown_path, truncate_chars, NoteText,
    SearchMatch, ToolError, MAX_NOTE_CHARS, MAX_SEARCH_RESULTS, MAX_SNIPPET_CHARS,
};
use knowledge_agent::vault::index_docs::parse_index_document;
use knowledge_agent::vault::scanner::{ScannedNote, VaultScan};
use knowledge_agent::vault::wikilinks::WikiLink;

fn link(target: &str) -> WikiLink {
    WikiLink { target: target.to_string(), alias: None }
}

fn note(path: &str, title: Option<&str>, links: &[&str]) -> ScannedNote {
    ScannedNote {
        relative_path: path.to_string(),
        title: title.map(|t| t.to_string()),
        note_type: None,
        tags: vec![],
        links: links.iter().map(|t| link(t)).collect(),
    }
}

fn sample_scan() -> VaultScan {
    VaultScan {
        root: "vault".to_string(),
        notes: vec![
            note("docs/_index.md", Some("Docs Index"), &["agent-harness"]),
            note("docs/concepts/_index.md", Some("Concepts Index"), &["agent-harness"]),
            note("docs/concepts/agent-harness.md", Some("Agent Harness"), &["LLM Harness"]),
            note("docs/research/loop.md", None, &["Agent Harness", "docs/concepts/agent-harness.md"]),
        ],
    }
}

fn text(path: &str, content: &str) -> NoteText {
    NoteText { path: path.to_string(), content: content.to_string() }
}

fn found(path: &str, line: usize, snippet: &str) -> SearchMatch {
    SearchMatch { path: path.to_string(), line, snippet: snippet.to_string() }
}

#[test]
fn tool_limits_are_fixed() {
    assert_eq!(MAX_NOTE_CHARS, 24000);
    assert_eq!(MAX_SEARCH_RESULTS, 20);
    assert_eq!(MAX_SNIPPET_CHARS, 240);
}

#[test]
fn truncation_counts_characters_not_bytes() {
    assert_eq!(truncate_chars("知识库笔记".to_string(), 3), ("知识库".to_string(), true));
    assert_eq!(truncate_chars("abc".to_string(), 3), ("abc".to_string(), false));
    assert_eq!(truncate_chars("abc".to_string(), 0), (String::new(), true));
}

#[test]
fn read_note_normalizes_the_path_and_cuts_long_notes() {
    let short = read_note(" \\docs\\a.md", "# A\n".to_string());
    assert_eq!(short.path, "docs/a.md");
    assert_eq!(short.content, "# A\n");
    assert!(!short.truncated);

    let long = read_note("b.md", "x".repeat(MAX_NOTE_CHARS + 5));
    assert_eq!(long.content.chars().count(), MAX_NOTE_CHARS);
    assert!(long.truncated);
}

#[test]
fn tool_paths_must_be_markdown_inside_the_vault() {
    assert_eq!(tool_markdown_path("/docs/a.md"), Ok("docs/a.md".to_string()));
    assert_eq!(
        tool_markdown_path("docs/a.txt"),
        Err(ToolError::InvalidArguments("path must point to a Markdown .md file".to_string()))
    );
    assert_eq!(
        tool_markdown_path("docs/../../a.md"),
        Err(ToolError::InvalidArguments("path must stay inside the vault".to_string()))
    );
    assert_eq!(new_note_path(" docs\\new.md "), Ok("docs/new.md".to_string()));
    assert!(new_note_path("..").is_err());
}

#[test]
fn list_notes_keeps_scan_order_and_fields() {
    let scan = sample_scan();
    let listed = list_notes(&scan);
    assert_eq!(listed.notes.len(), 4);
    assert_eq!(listed.notes[2].path, "docs/concepts/agent-harness.md");
    assert_eq!(listed.notes[2].title.as_deref(), Some("Agent Harness"));
    assert_eq!(listed.notes[3].title, None);
}

#[test]
fn search_returns_matching_lines_in_note_order() {
    let notes = vec![
        text("a.md", "# Agent\n  The AGENT harness  \nnothing here"),
        text("b.md", "agent b\r\n"),
    ];

    let result = search_notes(" agent ", None, &notes).unwrap();

    assert_eq!(result.query, "agent");
    assert_eq!(
        result.matches,
        vec![
            found("a.md", 1, "# Agent"),
            found("a.md", 2, "The AGENT harness"),
            found("b.md", 1, "agent b"),
        ]
    );
}

#[test]
fn search_limit_is_clamped() {
    let notes = vec![text("a.md", "x\nx\nx\nx")];
    assert_eq!(search_notes("x", Some(2), &notes).unwrap().matches.len(), 2);
    assert_eq!(search_notes("x", Some(0), &notes).unwrap().matches, vec![found("a.md", 1, "x")]);

    let many = vec![text("m.md", &"x\n".repeat(50))];
    assert_eq!(search_notes("X", Some(500), &many).unwrap().matches.len(), MAX_SEARCH_RESULTS);
    assert_eq!(search_notes("x", None, &many).unwrap().matches.len(), 10);
}

#[test]
fn search_snippets_are_trimmed_and_cut() {
    let line = format!("  agent {}", "y".repeat(400));
    let notes = vec![text("long.md", &line)];
    let result = search_notes("agent", None, &notes).unwrap();
    assert_eq!(result.matches[0].snippet.chars().count(), MAX_SNIPPET_CHARS);
    assert!(result.matches[0].snippet.starts_with("agent y"));
}

#[test]
fn search_refuses_a_blank_query() {
    assert_eq!(
        search_notes("  ", None, &vec![text("a.md", "x")]),
        Err(ToolError::InvalidArguments("query cannot be empty".to_string()))
    );
}

#[test]
fn identities_are_path_title_and_stem() {
    let n = note("docs/concepts/agent-harness.md", Some("Agent Harness"), &[]);
    assert_eq!(
        note_identities(&n),
        vec!["Agent Harness", "agent-harness", "docs/concepts/agent-harness.md"]
    );
    let same = note("x.md", Some("x"), &[]);
    assert_eq!(note_identities(&same), vec!["x", "x.md"]);
}

#[test]
fn neighbor_notes_follow_links_both_ways() {
    let scan = sample_scan();

    let result = neighbor_notes(&scan, "/docs/concepts/agent-harness.md").unwrap();

    assert_eq!(result.path, "docs/concepts/agent-harness.md");
    assert_eq!(result.outgoing_links, vec!["LLM Harness"]);
    assert_eq!(
        result.backlinks,
        vec!["docs/_index.md", "docs/concepts/_index.md", "docs/research/loop.md"]
    );
}

#[test]
fn neighbor_notes_report_missing_and_invalid_notes() {
    let scan = sample_scan();
    assert_eq!(
        neighbor_notes(&scan, "docs/missing.md"),
        Err(ToolError::Execution("note not found: docs/missing.md".to_string()))
    );
    assert_eq!(
        neighbor_notes(&scan, "docs/notes"),
        Err(ToolError::InvalidArguments("path must point to a Markdown .md file".to_string()))
    );
}

#[test]
fn proposals_require_confirmation_and_write_nothing() {
    let proposal = propose_note_update(" docs/a.md", "# New\n".to_string(), Some("why".to_string()))
        .unwrap();
    assert_eq!(proposal.path, "docs/a.md");
    assert!(!proposal.written);
    assert!(proposal.requires_confirmation);
    assert_eq!(proposal.reason.as_deref(), Some("why"));
    assert_eq!(proposal.replacement_content, "# New\n");

    assert!(propose_note_update("a.pdf", String::new(), None).is_err());
}

#[test]
fn index_entries_are_built_for_automatic_append() {
    let prepared = prepare_index_entry(
        "docs/concepts/_index.md",
        "\\docs\\concepts\\agent-loop.md",
        " Agent Loop ",
        Some("  The loop that drives tools. ".to_string()),
    )
    .unwrap();

    assert_eq!(
        prepared.entry,
        "\n## Agent Loop\n\n- link: [[docs/concepts/agent-loop.md]]\n- summary: The loop that drives tools.\n"
    );
    assert_eq!(prepared.result.index_path, "docs/concepts/_index.md");
    assert_eq!(prepared.result.target_path, "docs/concepts/agent-loop.md");
    assert!(prepared.result.written);
    assert_eq!(prepared.result.decision, "allow_automatic");

    let without_summary = prepare_index_entry("i.md", "t.md", "T", Some("   ".to_string())).unwrap();
    assert_eq!(without_summary.entry, "\n## T\n\n- link: [[t.md]]\n");

    assert!(prepare_index_entry("index.txt", "t.md", "T", None).is_err());
}

#[test]
fn an_appended_index_entry_reads_back_as_the_last_entry() {
    let index = "# Concepts\n\n## Agent Harness\n\n- [[agent-harness]]\n- summary: Agent runtime.\n";
    let prepared =
        prepare_index_entry("docs/_index.md", "agent-loop", "Agent Loop", Some("Drives tools.".to_string()))
            .unwrap();
    let appended = format!("{index}{}", prepared.entry);

    let parsed = parse_index_document("docs/_index.md", &appended).unwrap();
    let before = parse_index_document("docs/_index.md", index).unwrap();

    assert_eq!(parsed.entries.len(), 2);
    assert_eq!(parsed.entries[..1], before.entries[..]);
    let last = &parsed.entries[1];
    assert_eq!(last.title, "Agent Loop");
    assert_eq!(last.links, vec![link("agent-loop")]);
    assert_eq!(last.summary.as_deref(), Some("Drives tools."));
}

#[test]
fn index_entries_round_trip_with_brackets_in_the_target() {
    let prepared = prepare_index_entry("i.md", "notes/a]b.md", "A [draft]", Some("see [note]".to_string())).unwrap();
    let parsed = parse_index_document("i.md", &format!("# Index\n{}", prepared.entry)).unwrap();
    let last = parsed.entries.last().unwrap();
    assert_eq!(last.title, "A [draft]");
    assert_eq!(last.links, vec![link("notes/a]b.md")]);
    assert_eq!(last.summary.as_deref(), Some("see [note]"));

    // A target that ends with `]` loses it: the link closes at the first `]]`.
    let ends = prepare_index_entry("i.md", "x]", "X", None).unwrap();
    let parsed = parse_index_document("i.md", &ends.entry).unwrap();
    assert_eq!(parsed.entries[0].links, vec![link("x")]);
}

#[test]
fn appending_keeps_the_earlier_entries_even_after_a_carriage_return() {
    let index = "## A\n- [[a]]\n- summary: first\r";
    let prepared = prepare_index_entry("i.md", "b", "B", None).unwrap();
    let before = parse_index_document("i.md", index).unwrap();
    let after = parse_index_document("i.md", &format!("{index}{}", prepared.entry)).unwrap();
    assert_eq!(after.entries.len(), before.entries.len() + 1);
    assert_eq!(after.entries[..before.entries.len()], before.entries[..]);
    assert_eq!(before.entries[0].summary.as_deref(), Some("first"));
}

#[test]
fn a_hand_written_index_block_reads_back_trimmed() {
    let doc = "# Index\n\n## A\n- [[a]]\n- summary: first";
    let block = "\n##  Loop  \n\n- link: [[ loop ]]\n- summary:   \n";
    let before = parse_index_document("i.md", doc).unwrap();
    let after = parse_index_document("i.md", &format!("{doc}{block}")).unwrap();

    assert_eq!(after.entries[..before.entries.len()], before.entries[..]);
    let last = after.entries.last().unwrap();
    assert_eq!(last.title, "Loop");
    assert_eq!(last.links, vec![link("loop")]);
    assert_eq!(last.summary.as_deref(), Some(""));
}

#[test]
fn match_limits_are_clamped() {
    assert_eq!(match_limit(None), 10);
    assert_eq!(match_limit(Some(0)), 1);
    assert_eq!(match_limit(Some(7)), 7);
    assert_eq!(match_limit(Some(99)), MAX_SEARCH_RESULTS);
}
