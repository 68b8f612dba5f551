//! Settings and their defaults, saved searches, and the data directories.
//! Sync credentials and the assistant's API key are not settings: they live
//! in the secret service (see `secrets`).

use vstd::prelude::*;

verus! {

/// A saved search: an id, a display name and the query text.
#[derive(Debug, Clone, PartialEq)]
pub struct SavedSearch {
    pub id: String,
    pub name: String,
    pub query: String,
}

/// The application settings.
#[derive(Debug, Clone)]
pub struct Settings {
    /// Sidebar filter key shown at start (e.g. `inbox`).
    pub default_filter: String,
    /// Sort key (`id`, `description`, `entry`, `due`, `project`).
    pub sort_key: String,
    pub sort_ascending: bool,
    /// Window of "due soon" in days.
    pub due_soon_days: i64,
    pub hide_completed: bool,
    /// Notify about overdue tasks at start (opt-in).
    pub notify_overdue: bool,
    /// Auto-sync mode: `manual`, `m5`, `m15`, `m60` or `immediate`.
    pub auto_sync: String,
    /// Interface language; empty means the system language.
    pub language: String,
    /// Sync server URL (not secret).
    pub sync_server_url: String,
    pub saved_searches: Vec<SavedSearch>,
    /// Last reported overdue count (so the start notification does not nag).
    pub last_overdue_count: i64,
    /// Sidebar width in pixels; 0 means the theme's default.
    pub sidebar_width: i64,
    /// Collapsed sidebar sections (`saved`, `projects`, `tags`).
    pub collapsed_sections: Vec<String>,
    /// Assistant provider preset: `ollama`, `openrouter` or `custom`.
    pub ai_provider: String,
    /// Base URL of the OpenAI-compatible endpoint.
    pub ai_base_url: String,
    /// Model name; empty means the assistant is not configured.
    pub ai_model: String,
    /// Speech-to-text backend: `openai-whisper` or `whisper-cpp`.
    pub ai_stt_backend: String,
    /// Whisper model of the openai-whisper backend.
    pub ai_whisper_model: String,
    /// Path of the whisper-cli program (whisper-cpp backend).
    pub ai_whisper_cpp_binary: String,
    /// Path of the GGML model file (whisper-cpp backend).
    pub ai_whisper_cpp_model: String,
}

impl Default for Settings {
    fn default() -> (r: Self)
        ensures
            r.default_filter@ == "inbox"@,
            r.sort_key@ == "id"@,
            r.sort_ascending,
            r.due_soon_days == 7,
            !r.hide_completed,
            !r.notify_overdue,
            r.auto_sync@ == "manual"@,
            r.language@.len() == 0,
            r.sync_server_url@.len() == 0,
            r.saved_searches@.len() == 0,
            r.last_overdue_count == 0,
            r.sidebar_width == 0,
            r.collapsed_sections@.len() == 0,
            r.ai_provider@ == "ollama"@,
            r.ai_base_url@ == "http://localhost:11434/v1"@,
            r.ai_model@.len() == 0,
            r.ai_stt_backend@ == "openai-whisper"@,
            r.ai_whisper_model@ == "small"@,
            r.ai_whisper_cpp_binary@.len() == 0,
            r.ai_whisper_cpp_model@.len() == 0,
    {
        Settings {
            default_filter: String::from_str("inbox"),
            sort_key: String::from_str("id"),
            sort_ascending: true,
            due_soon_days: 7,
            hide_completed: false,
            notify_overdue: false,
            auto_sync: String::from_str("manual"),
            language: String::new(),
            sync_server_url: String::new(),
            saved_searches: Vec::new(),
            last_overdue_count: 0,
            sidebar_width: 0,
            collapsed_sections: Vec::new(),
            ai_provider: String::from_str("ollama"),
            ai_base_url: String::from_str("http://localhost:11434/v1"),
            ai_model: String::new(),
            ai_stt_backend: String::from_str("openai-whisper"),
            ai_whisper_model: String::from_str("small"),
            ai_whisper_cpp_binary: String::new(),
            ai_whisper_cpp_model: String::new(),
        }
    }
}

#[verifier::external_type_specification]
#[verifier::external_body]
pub struct ExPathBuf(std::path::PathBuf);

/// `dirs::data_dir()`: the user's data directory, if the platform has one.
/// It depends on the environment.
#[verifier::external_body]
fn platform_data_dir() -> (r: Option<std::path::PathBuf>) {
    dirs::data_dir()
}

/// `dirs::config_dir()`: the user's configuration directory, if any. It
/// depends on the environment.
#[verifier::external_body]
fn platform_config_dir() -> (r: Option<std::path::PathBuf>) {
    dirs::config_dir()
}

/// What `PathBuf::from(s)` gives: the path whose text is `s`.
pub uninterp spec fn spec_path_from(s: Seq<char>) -> std::path::PathBuf;

/// `PathBuf::from(s)`.
#[verifier::external_body]
fn path_from(s: &str) -> (r: std::path::PathBuf)
    ensures
        r == spec_path_from(s@),
{
    std::path::PathBuf::from(s)
}

/// What `base.join(part)` gives: `part` appended to `base` as one more
/// component (or `part` alone, where it is absolute).
pub uninterp spec fn spec_path_join(base: std::path::PathBuf, part: Seq<char>) -> std::path::PathBuf;

/// `base.join(part)`.
#[verifier::external_body]
pub(crate) fn path_join(base: &std::path::PathBuf, part: &str) -> (r: std::path::PathBuf)
    ensures
        r == spec_path_join(*base, part@),
{
    base.join(part)
}

/// The platform directory, or the current directory where there is none.
fn or_current(dir: Option<std::path::PathBuf>) -> (r: std::path::PathBuf)
    ensures
        r == match dir {
            Some(d) => d,
            None => spec_path_from("."@),
        },
{
    match dir {
        Some(d) => d,
        None => path_from("."),
    }
}

/// `<config dir>/vergissmeinnicht/config.json`. Which directory is the
/// configuration directory depends on the environment (the current
/// directory where the platform has none).
pub fn config_path() -> (r: std::path::PathBuf)
    ensures
        exists|base: std::path::PathBuf|
            r == spec_path_join(spec_path_join(base, "vergissmeinnicht"@), "config.json"@),
{
    let base = or_current(platform_config_dir());
    let app = path_join(&base, "vergissmeinnicht");
    path_join(&app, "config.json")
}

/// `<data dir>/vergissmeinnicht`. Which directory is the data directory
/// depends on the environment (the current directory where the platform
/// has none).
pub fn data_dir() -> (r: std::path::PathBuf)
    ensures
        exists|base: std::path::PathBuf| r == spec_path_join(base, "vergissmeinnicht"@),
{
    let base = or_current(platform_data_dir());
    path_join(&base, "vergissmeinnicht")
}

/// The replica directory: `<data dir>/vergissmeinnicht/replica`.
pub fn replica_dir() -> (r: std::path::PathBuf)
    ensures
        exists|base: std::path::PathBuf|
            r == spec_path_join(spec_path_join(base, "vergissmeinnicht"@), "replica"@),
{
    path_join(&data_dir(), "replica")
}

/// The backup directory: `<data dir>/vergissmeinnicht/backups`.
pub fn backup_dir() -> (r: std::path::PathBuf)
    ensures
        exists|base: std::path::PathBuf|
            r == spec_path_join(spec_path_join(base, "vergissmeinnicht"@), "backups"@),
{
    path_join(&data_dir(), "backups")
}

} // verus!
