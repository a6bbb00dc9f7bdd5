//! Shared vault conventions (`.knowledge-agent.toml`) and personal settings
//! (`.knowledge-agent/local.toml`).
use vstd::prelude::*;
use crate::text::{is_blank, str_eq, trim};
use crate::vault::frontmatter::strs_view;
use crate::vault::wikilinks::opt_view;

verus! {

/// Vault conventions shared through Git.
#[derive(Debug, Clone, PartialEq, Eq)]
pub struct VaultSettings {
    pub docs_dir: String,
    pub research_dir: String,
    pub concepts_dir: String,
    pub index_file_name: String,
    pub required_frontmatter: Vec<String>,
}

impl Default for VaultSettings {
    /// The default vault profile.
    fn default() -> (r: Self)
        ensures
            r.docs_dir@ == "docs"@,
            r.research_dir@ == "docs/research"@,
            r.concepts_dir@ == "docs/concepts"@,
            r.index_file_name@ == "_index.md"@,
            strs_view(r.required_frontmatter@) == seq!["title"@, "type"@, "created"@, "updated"@],
    {
        let mut required: Vec<String> = Vec::new();
        required.push(String::from_str("title"));
        required.push(String::from_str("type"));
        required.push(String::from_str("created"));
        required.push(String::from_str("updated"));
        assert(strs_view(required@) =~= seq!["title"@, "type"@, "created"@, "updated"@]);
        Self {
            docs_dir: String::from_str("docs"),
            research_dir: String::from_str("docs/research"),
            concepts_dir: String::from_str("docs/concepts"),
            index_file_name: String::from_str("_index.md"),
            required_frontmatter: required,
        }
    }
}

/// Personal settings of this machine.
#[derive(Debug, Clone, PartialEq, Eq)]
pub struct LocalSettings {
    pub llm: LocalLlmSettings,
    pub web_search: LocalWebSearchSettings,
}

/// The language model provider and its credentials.
#[derive(Debug, Clone, PartialEq, Eq)]
pub struct LocalLlmSettings {
    pub provider: String,
    pub deepseek_api_key: Option<String>,
    pub deepseek_model: String,
}

/// Web search configuration.
#[derive(Debug, Clone, PartialEq, Eq)]
pub struct LocalWebSearchSettings {
    pub enabled: bool,
    pub provider: String,
}

impl Default for LocalSettings {
    /// Default LLM and web search settings.
    fn default() -> (r: Self)
        ensures
            r.llm.provider@ == "deepseek"@,
            r.llm.deepseek_api_key is None,
            r.llm.deepseek_model@ == "deepseek-v4-flash"@,
            !r.web_search.enabled,
            r.web_search.provider@ == "manual"@,
    {
        Self { llm: LocalLlmSettings::default(), web_search: LocalWebSearchSettings::default() }
    }
}

impl Default for LocalLlmSettings {
    /// DeepSeek, no key, the flash model.
    fn default() -> (r: Self)
        ensures
            r.provider@ == "deepseek"@,
            r.deepseek_api_key is None,
            r.deepseek_model@ == "deepseek-v4-flash"@,
    {
        Self {
            provider: String::from_str("deepseek"),
            deepseek_api_key: None,
            deepseek_model: String::from_str("deepseek-v4-flash"),
        }
    }
}

impl Default for LocalWebSearchSettings {
    /// Web search off, manual provider.
    fn default() -> (r: Self)
        ensures
            !r.enabled,
            r.provider@ == "manual"@,
    {
        Self { enabled: false, provider: String::from_str("manual") }
    }
}

/// Web search runs only when it is enabled with the `duckduckgo` provider.
pub fn web_search_enabled(settings: &LocalSettings) -> (r: bool)
    ensures
        r == (settings.web_search.enabled && settings.web_search.provider@ == "duckduckgo"@),
{
    settings.web_search.enabled && str_eq(settings.web_search.provider.as_str(), "duckduckgo")
}

/// A value that is present and not blank.
pub open spec fn present(v: Option<String>) -> bool {
    v matches Some(s) && trim(s@).len() > 0
}

/// The local value of a variable when it is present and not blank, else the
/// environment's value.
pub fn local_or_env(local: Option<String>, env: Option<String>) -> (r: Option<String>)
    ensures
        r == (if present(local) {
            local
        } else {
            env
        }),
{
    match local {
        Some(v) => {
            if is_blank(v.as_str()) {
                env
            } else {
                Some(v)
            }
        },
        None => env,
    }
}

/// Whether a DeepSeek key is configured, and where it comes from.
#[derive(Debug, Clone, PartialEq, Eq)]
pub struct EffectiveLocalSettings {
    pub deepseek_api_key_configured: bool,
    pub deepseek_api_key_source: Option<String>,
}

/// The settings as the settings page shows them.
#[derive(Debug, Clone, PartialEq, Eq)]
pub struct LocalSettingsResponse {
    pub settings: LocalSettings,
    pub effective: EffectiveLocalSettings,
}

/// Describes where the DeepSeek key comes from: the local settings win over the
/// environment variable (`env_key`), and a blank key does not count.
pub fn settings_response(settings: LocalSettings, env_key: Option<String>) -> (r: LocalSettingsResponse)
    ensures
        r.settings == settings,
        r.effective.deepseek_api_key_configured == (present(settings.llm.deepseek_api_key) || present(
            env_key,
        )),
        opt_view(r.effective.deepseek_api_key_source) == (if present(settings.llm.deepseek_api_key) {
            Some("local"@)
        } else if present(env_key) {
            Some("environment"@)
        } else {
            None
        }),
{
    let local_key_configured = match &settings.llm.deepseek_api_key {
        Some(k) => !is_blank(k.as_str()),
        None => false,
    };
    let env_key_configured = match &env_key {
        Some(k) => !is_blank(k.as_str()),
        None => false,
    };
    let source = if local_key_configured {
        Some(String::from_str("local"))
    } else if env_key_configured {
        Some(String::from_str("environment"))
    } else {
        None
    };
    LocalSettingsResponse {
        settings,
        effective: EffectiveLocalSettings {
            deepseek_api_key_configured: local_key_configured || env_key_configured,
            deepseek_api_key_source: source,
        },
    }
}

} // verus!
