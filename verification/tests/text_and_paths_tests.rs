use knowledge_agent::text::{
    chars_of, contains_exec, find_from_exec, is_ascii_alphanumeric, is_blank, is_whitespace,
    line_ranges, str_ends_with, str_eq, str_lt, str_starts_with, trim_str,
};
use knowledge_agent::vault::assets::{list_pdf_assets, PdfAsset, VaultFile};
use knowledge_agent::vault::paths::{
    check_markdown_path, file_stem_of, last_component_string, normalize_relative_path,
    path_has_extension, skips_directory, stays_inside_vault, PathError,
};
use knowledge_agent::vault::wikilinks::{extract_wikilinks, WikiLink};

#[test]
fn whitespace_agrees_with_char_is_whitespace() {
    for code in 0u32..=0x10FFFF {
        if let Some(c) = char::from_u32(code) {
            assert_eq!(is_whitespace(c), c.is_whitespace(), "U+{code:04X}");
            assert_eq!(is_ascii_alphanumeric(c), c.is_ascii_alphanumeric(), "U+{code:04X}");
        }
    }
}

#[test]
fn trim_agrees_with_str_trim() {
    let samples = [
        "", " ", "  a  ", "\u{3000}知识\u{3000}", "\t\n x y \r\n", "\u{85}a\u{2028}", "abc",
        "\u{200B}a\u{200B}",
    ];
    for s in samples {
        assert_eq!(trim_str(s), s.trim(), "{s:?}");
        assert_eq!(is_blank(s), s.trim().is_empty(), "{s:?}");
    }
}

#[test]
fn line_ranges_agree_with_str_lines() {
    let samples = ["", "a", "a\n", "a\n\nb", "a\r\nb\r\n", "\r", "x\r\r\n", "\n\n", "end\r"];
    for s in samples {
        let v = chars_of(s);
        let ours: Vec<String> = line_ranges(&v)
            .iter()
            .map(|(lo, hi)| v[*lo..*hi].iter().collect())
            .collect();
        let std_lines: Vec<String> = s.lines().map(|l| l.to_string()).collect();
        assert_eq!(ours, std_lines, "{s:?}");
    }
}

#[test]
fn string_order_agrees_with_str_order() {
    let words = ["", "a", "ab", "b", "B", "知", "docs/_index.md", "docs/concepts/_index.md"];
    for a in words {
        for b in words {
            assert_eq!(str_lt(a, b), a < b, "{a:?} < {b:?}");
            assert_eq!(str_eq(a, b), a == b, "{a:?} == {b:?}");
        }
    }
}

#[test]
fn substring_search_finds_the_first_occurrence() {
    let v = chars_of("a[[b]] [[c]]");
    let p = chars_of("[[");
    assert_eq!(find_from_exec(&v, &p, 0), Some(1));
    assert_eq!(find_from_exec(&v, &p, 2), Some(7));
    assert_eq!(find_from_exec(&v, &p, 8), None);
    assert!(contains_exec(&v, &chars_of("]] [[")));
    assert!(!contains_exec(&v, &chars_of("]]]")));
    assert!(str_starts_with("- summary: x", &chars_of("- summary:")));
    assert!(str_ends_with("note.md", &chars_of(".md")));
}

#[test]
fn wikilinks_skip_empty_targets_and_unclosed_links() {
    assert_eq!(
        extract_wikilinks("[[ | alias]] [[a| ]] [[b|c|d]] [[open"),
        vec![
            WikiLink { target: "a".to_string(), alias: None },
            WikiLink { target: "b".to_string(), alias: Some("c|d".to_string()) },
        ]
    );
    assert_eq!(extract_wikilinks("no links"), vec![]);
    assert_eq!(
        extract_wikilinks("[[[x]]]"),
        vec![WikiLink { target: "[x".to_string(), alias: None }]
    );
}

#[test]
fn relative_paths_are_normalized() {
    assert_eq!(normalize_relative_path("  //docs\\a.md "), "docs/a.md");
    assert_eq!(normalize_relative_path(""), "");
    assert!(stays_inside_vault("docs/a..b.md"));
    assert!(!stays_inside_vault("docs/../a.md"));
    assert!(!stays_inside_vault(".."));
    assert!(!stays_inside_vault("/a.md"));
    assert_eq!(check_markdown_path("\\x\\y.md"), Ok("x/y.md".to_string()));
    assert_eq!(check_markdown_path("x/..//y.md"), Err(PathError::OutsideVault));
    assert_eq!(check_markdown_path("x.MD"), Err(PathError::NotMarkdown));
    assert_eq!(PathError::OutsideVault.message(), "path must stay inside the vault");
}

#[test]
fn checked_paths_pass_the_check_again() {
    for p in ["docs/a.md", " \\docs\\b.md ", "//x/y.md"] {
        let checked = check_markdown_path(p).unwrap();
        assert_eq!(check_markdown_path(&checked), Ok(checked.clone()));
    }
    // White space that a leading `/` left in front is trimmed by the second check.
    assert_eq!(check_markdown_path("/ ../x.md"), Ok(" ../x.md".to_string()));
    assert_eq!(check_markdown_path(" ../x.md"), Err(PathError::OutsideVault));
}

#[test]
fn file_names_agree_with_std_path() {
    let samples = [
        "a/b.md", "b", ".hidden", "a/.hidden", "a.tar.gz", "dir/", "a/b/", "..", "a/..", "x.", "", "/",
        ".", "./", "a/b/.", "a/./", "//x//", "...", "a/b.pdf/", "a/..b.md", "a.b/c",
    ];
    for s in samples {
        let path = std::path::Path::new(s);
        let std_stem = path.file_stem().map(|f| f.to_string_lossy().to_string());
        assert_eq!(file_stem_of(s), std_stem, "{s:?}");
        for ext in ["md", "pdf", "gz", "tar.gz", "", "b"] {
            let std_has = path.extension().map(|e| e == ext).unwrap_or(false);
            assert_eq!(path_has_extension(s, ext), std_has, "{s:?} {ext:?}");
        }
    }
    assert_eq!(file_stem_of("docs/concepts/agent-harness.md").as_deref(), Some("agent-harness"));
    assert_eq!(file_stem_of("a/b/").as_deref(), Some("b"));
    assert_eq!(file_stem_of(""), None);
    assert_eq!(last_component_string("docs/concepts/agent-harness.md"), "agent-harness.md");
    assert!(path_has_extension("assets/one.pdf", "pdf"));
    assert!(!path_has_extension("assets/.pdf", "pdf"));
    assert!(!path_has_extension("assets/one.pdf.txt", "pdf"));
    assert!(!path_has_extension("assets/one.PDF", "pdf"));
}

#[test]
fn walks_skip_git_and_local_state() {
    assert!(skips_directory(".git"));
    assert!(skips_directory(".knowledge-agent"));
    assert!(!skips_directory("docs"));
}

#[test]
fn lists_pdf_assets_inside_vault() {
    let files = vec![
        VaultFile { relative_path: "note.md".to_string(), bytes: 7 },
        VaultFile { relative_path: "assets/papers/one.pdf".to_string(), bytes: 9 },
    ];

    let pdfs = list_pdf_assets(files);

    assert_eq!(pdfs.len(), 1);
    assert_eq!(pdfs[0].path, "assets/papers/one.pdf");
    assert_eq!(pdfs[0].bytes, 9);
}

#[test]
fn pdf_assets_are_sorted_with_forward_slashes() {
    let files = vec![
        VaultFile { relative_path: "z.pdf".to_string(), bytes: 1 },
        VaultFile { relative_path: "assets\\b.pdf".to_string(), bytes: 2 },
        VaultFile { relative_path: "assets/a.pdf".to_string(), bytes: 3 },
        VaultFile { relative_path: "scan.pdf.bak".to_string(), bytes: 4 },
    ];

    assert_eq!(
        list_pdf_assets(files),
        vec![
            PdfAsset { path: "assets/a.pdf".to_string(), bytes: 3 },
            PdfAsset { path: "assets/b.pdf".to_string(), bytes: 2 },
            PdfAsset { path: "z.pdf".to_string(), bytes: 1 },
        ]
    );
}
