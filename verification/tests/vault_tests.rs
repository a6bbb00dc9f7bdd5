use knowledge_agent::maintenance::checks::run_maintenance_scan;
use knowledge_agent::vault::frontmatter::{parse_markdown_note, FrontMatter};
use knowledge_agent::vault::graph::build_link_graph;
use knowledge_agent::vault::index_docs::parse_index_document;
use knowledge_agent::vault::policy::{VaultWriteOperation, VaultWritePolicy, WriteDecision};
use knowledge_agent::vault::scanner::{scan_vault, MarkdownFile, VaultScan};
use knowledge_agent::vault::wikilinks::{extract_wikilinks, WikiLink};

const README: &str = "# Basic Vault\n\nThis fixture is an Obsidian-compatible vault for tests.\n";

const DOCS_INDEX: &str = "---\ntitle: Docs Index\ntype: index\nscope: docs\ncreated: 2026-06-11\nupdated: 2026-06-11\n---\n\n# Docs Index\n\n## Concepts\n\n- [[agent-harness]]\n";

const CONCEPTS_INDEX: &str = "---\ntitle: Concepts Index\ntype: index\nscope: concepts\ncreated: 2026-06-11\nupdated: 2026-06-11\n---\n\n# Concepts\n\n## Agent Harness\n\n- [[agent-harness]]\n- tags: #agent #runtime\n- summary: Agent runtime, tools, and sessions.\n";

const AGENT_HARNESS: &str = "---\ntitle: Agent Harness\ntype: concept\ntags: [agent, runtime]\ncreated: 2026-06-11\nupdated: 2026-06-11\n---\n\n# Agent Harness\n\nAn agent harness coordinates messages, tools, and sessions.\n\nSee [[LLM Harness]].\n";

fn fm(title: &str, note_type: &str, tags: &[&str]) -> Option<FrontMatter> {
    Some(FrontMatter {
        title: Some(title.to_string()),
        note_type: Some(note_type.to_string()),
        tags: if tags.is_empty() {
            None
        } else {
            Some(tags.iter().map(|t| t.to_string()).collect())
        },
    })
}

fn file(path: &str, raw: &str, front_matter: Option<FrontMatter>) -> MarkdownFile {
    MarkdownFile {
        relative_path: path.to_string(),
        raw: raw.to_string(),
        front_matter,
    }
}

/// The Markdown files of the basic fixture vault, in walk order.
fn basic_vault_scan() -> VaultScan {
    scan_vault(
        "tests/fixtures/basic-vault",
        vec![
            file("docs/concepts/agent-harness.md", AGENT_HARNESS, fm("Agent Harness", "concept", &["agent", "runtime"])),
            file("README.md", README, None),
            file("docs/concepts/_index.md", CONCEPTS_INDEX, fm("Concepts Index", "index", &[])),
            file("docs/_index.md", DOCS_INDEX, fm("Docs Index", "index", &[])),
        ],
    )
}

#[test]
fn parses_index_links_and_summaries() {
    let raw = CONCEPTS_INDEX;

    let index = parse_index_document("docs/concepts/_index.md", raw).expect("index parses");

    assert_eq!(index.path, "docs/concepts/_index.md");
    assert_eq!(index.entries.len(), 1);
    assert_eq!(index.entries[0].title, "Agent Harness");
    assert_eq!(index.entries[0].links[0].target, "agent-harness");
    assert_eq!(
        index.entries[0].summary.as_deref(),
        Some("Agent runtime, tools, and sessions.")
    );
}

#[test]
fn builds_backlinks_from_scan() {
    let scan = basic_vault_scan();

    let graph = build_link_graph(&scan);

    let backlinks = graph.backlinks_to("LLM Harness");
    assert_eq!(backlinks, vec!["docs/concepts/agent-harness.md"]);
}

#[test]
fn reports_broken_wikilinks() {
    let scan = basic_vault_scan();

    let inbox = run_maintenance_scan(&scan);

    assert!(inbox.items.iter().any(|item| {
        item.kind == "broken_wikilink"
            && item.file == "docs/concepts/agent-harness.md"
            && item.evidence.contains("LLM Harness")
    }));
}

#[test]
fn write_policy_allows_only_low_risk_automatic_writes() {
    let policy = VaultWritePolicy;

    assert_eq!(
        policy.decide(&VaultWriteOperation::AddIndexEntry {
            index_path: "docs/concepts/_index.md".to_string(),
            target_path: "docs/concepts/agent-harness.md".to_string(),
        }),
        WriteDecision::AllowAutomatic
    );

    assert_eq!(
        policy.decide(&VaultWriteOperation::ModifyBodyMeaning {
            path: "docs/concepts/agent-harness.md".to_string(),
        }),
        WriteDecision::RequireConfirmation
    );
}

#[test]
fn parses_yaml_frontmatter_and_body() {
    let raw = r#"---
title: Agent Harness
type: concept
tags: [agent, runtime]
created: 2026-06-11
updated: 2026-06-11
---

# Agent Harness

Links to [[LLM Harness|runtime harness]].
"#;

    let note = parse_markdown_note(raw, fm("Agent Harness", "concept", &["agent", "runtime"]));

    assert_eq!(note.title.as_deref(), Some("Agent Harness"));
    assert_eq!(note.note_type.as_deref(), Some("concept"));
    assert_eq!(note.tags, vec!["agent", "runtime"]);
    assert!(note.body.contains("# Agent Harness"));
}

#[test]
fn extracts_wikilinks_with_aliases() {
    let links = extract_wikilinks("See [[Agent Harness]] and [[LLM Harness|runtime harness]].");

    assert_eq!(
        links,
        vec![
            WikiLink {
                target: "Agent Harness".to_string(),
                alias: None
            },
            WikiLink {
                target: "LLM Harness".to_string(),
                alias: Some("runtime harness".to_string())
            },
        ]
    );
}

#[test]
fn scans_markdown_notes_relative_to_vault_root() {
    let scan = basic_vault_scan();

    let note = scan
        .notes
        .iter()
        .find(|note| note.relative_path == "docs/concepts/agent-harness.md")
        .expect("concept note exists");

    assert_eq!(note.title.as_deref(), Some("Agent Harness"));
    assert_eq!(note.tags, vec!["agent", "runtime"]);
    assert_eq!(note.links[0].target, "LLM Harness");
}

#[test]
fn maintenance_scan_is_empty_when_every_link_resolves() {
    let scan = scan_vault(
        "vault",
        vec![
            file("docs/a.md", "Links to [[b]] and [[Note C]].", fm("Note A", "concept", &[])),
            file("docs/b.md", "Back to [[Note A]].", None),
            file("c.md", "[[a]]", fm("Note C", "concept", &[])),
        ],
    );

    assert!(run_maintenance_scan(&scan).items.is_empty());

    let broken = scan_vault("vault", vec![file("x.md", "[[missing]]", None)]);
    let inbox = run_maintenance_scan(&broken);
    assert_eq!(inbox.items.len(), 1);
    assert_eq!(inbox.items[0].priority, "P0");
    assert_eq!(inbox.items[0].evidence, "Missing target [[missing]]");
    assert!(!inbox.items[0].requires_confirmation);
}

#[test]
fn new_notes_add_no_broken_links_for_existing_notes() {
    let old_files = vec![
        file("docs/a.md", "See [[New Note]] and [[Gone]].", fm("Note A", "concept", &[])),
        file("docs/b.md", "[[Note A]]", None),
    ];
    let mut new_files = old_files.clone();
    new_files.push(file("docs/new.md", "[[Missing]]", fm("New Note", "concept", &[])));

    let before = run_maintenance_scan(&scan_vault("vault", old_files));
    let after = run_maintenance_scan(&scan_vault("vault", new_files));

    let evidence = |inbox: &knowledge_agent::maintenance::inbox::MaintenanceInbox, old_only: bool| {
        inbox
            .items
            .iter()
            .filter(|i| !old_only || i.file != "docs/new.md")
            .map(|i| (i.file.clone(), i.evidence.clone()))
            .collect::<Vec<_>>()
    };
    assert_eq!(
        evidence(&before, false),
        vec![
            ("docs/a.md".to_string(), "Missing target [[New Note]]".to_string()),
            ("docs/a.md".to_string(), "Missing target [[Gone]]".to_string()),
        ]
    );
    assert_eq!(evidence(&after, true), vec![("docs/a.md".to_string(), "Missing target [[Gone]]".to_string())]);
    assert_eq!(after.items.len(), 2);
}

#[test]
fn a_closed_link_is_read_apart_from_what_follows() {
    let whole = extract_wikilinks("see ] [[a|b]] and [[c]] [[d");
    let mut parts = extract_wikilinks("[[a|b]]");
    parts.extend(extract_wikilinks(" and [[c]] [[d"));
    assert_eq!(whole, parts);
    assert_eq!(
        whole,
        vec![
            WikiLink { target: "a".to_string(), alias: Some("b".to_string()) },
            WikiLink { target: "c".to_string(), alias: None },
        ]
    );
}
