use knowledge_agent::settings::{
    local_or_env, settings_response, web_search_enabled, LocalSettings, VaultSettings,
};

#[test]
fn default_vault_settings_follow_the_vault_profile() {
    let settings = VaultSettings::default();

    assert_eq!(settings.docs_dir, "docs");
    assert_eq!(settings.research_dir, "docs/research");
    assert_eq!(settings.concepts_dir, "docs/concepts");
    assert_eq!(settings.index_file_name, "_index.md");
    assert_eq!(settings.required_frontmatter, vec!["title", "type", "created", "updated"]);
}

#[test]
fn default_local_settings_use_deepseek_without_web_search() {
    let settings = LocalSettings::default();

    assert_eq!(settings.llm.provider, "deepseek");
    assert_eq!(settings.llm.deepseek_api_key, None);
    assert_eq!(settings.llm.deepseek_model, "deepseek-v4-flash");
    assert!(!settings.web_search.enabled);
    assert_eq!(settings.web_search.provider, "manual");
    assert!(!web_search_enabled(&settings));
}

#[test]
fn web_search_needs_the_duckduckgo_provider() {
    let mut settings = LocalSettings::default();
    settings.web_search.enabled = true;
    assert!(!web_search_enabled(&settings));
    settings.web_search.provider = "duckduckgo".to_string();
    assert!(web_search_enabled(&settings));
    settings.web_search.enabled = false;
    assert!(!web_search_enabled(&settings));
}

#[test]
fn local_values_win_over_the_environment_unless_blank() {
    assert_eq!(local_or_env(Some("a".to_string()), Some("b".to_string())), Some("a".to_string()));
    assert_eq!(local_or_env(Some("  ".to_string()), Some("b".to_string())), Some("b".to_string()));
    assert_eq!(local_or_env(None, Some("b".to_string())), Some("b".to_string()));
    assert_eq!(local_or_env(None, None), None);
}

#[test]
fn settings_response_reports_where_the_key_comes_from() {
    let mut settings = LocalSettings::default();
    settings.llm.deepseek_api_key = Some("secret".to_string());
    settings.llm.deepseek_model = "deepseek-chat".to_string();

    let local = settings_response(settings.clone(), Some("env".to_string()));
    assert_eq!(local.settings, settings);
    assert!(local.effective.deepseek_api_key_configured);
    assert_eq!(local.effective.deepseek_api_key_source.as_deref(), Some("local"));

    let from_env = settings_response(LocalSettings::default(), Some("env".to_string()));
    assert!(from_env.effective.deepseek_api_key_configured);
    assert_eq!(from_env.effective.deepseek_api_key_source.as_deref(), Some("environment"));

    let mut blank = LocalSettings::default();
    blank.llm.deepseek_api_key = Some(" ".to_string());
    let none = settings_response(blank, Some("".to_string()));
    assert!(!none.effective.deepseek_api_key_configured);
    assert_eq!(none.effective.deepseek_api_key_source, None);
}
