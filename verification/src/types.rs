//! The records exchanged with the user interface: sources, scanned files,
//! plans, progress and results.
use vstd::prelude::*;

verus! {

/// A card, drive or folder to ingest from.
#[derive(Debug, Clone)]
pub struct SourcePath {
    pub path: String,
    pub label: String,
    pub exclusions: Vec<String>,
}

/// One media file found while scanning a source.
#[derive(Debug, Clone)]
pub struct ScannedFile {
    pub path: String,
    pub name: String,
    pub size: u64,
    pub modified: String,
    pub created: Option<String>,
    pub capture_date: Option<String>,
    pub device_name: Option<String>,
    pub file_type: String,
    pub hash: Option<String>,
}

/// Everything found on one source, with counts per kind.
#[derive(Debug, Clone)]
pub struct SourceScanResult {
    pub source: SourcePath,
    pub files: Vec<ScannedFile>,
    pub total_size: u64,
    pub video_count: usize,
    pub photo_count: usize,
    pub audio_count: usize,
    pub other_count: usize,
}

/// What is known about a chosen library location.
#[derive(Debug, Clone)]
pub struct DestInfo {
    pub path: String,
    pub exists: bool,
    pub writable: bool,
    pub free_space: u64,
}

/// How an ingest is to be carried out.
#[derive(Debug, Clone)]
pub struct IngestOptions {
    /// `"copy"` or `"move"`.
    pub operation: String,
    pub skip_duplicates: bool,
    pub dest_root: String,
    /// A date (`YYYY-MM-DD`) that replaces what the files claim, for cameras
    /// whose clock is wrong. Ignored unless it names a real year and month.
    pub force_date: Option<String>,
}

/// One planned transfer.
#[derive(Debug, Clone)]
pub struct IngestOperation {
    pub source_path: String,
    pub dest_path: String,
    /// `"copy"`, `"move"` or `"skip"`.
    pub action: String,
    pub size: u64,
    pub capture_date: Option<String>,
    pub device_name: String,
    pub hash: Option<String>,
}

/// Everything an ingest will do, with totals over the transfers that are not
/// skipped.
#[derive(Debug, Clone)]
pub struct IngestPlan {
    pub operations: Vec<IngestOperation>,
    pub total_files: usize,
    pub total_size: u64,
    pub duplicate_count: usize,
}

/// Progress reported to the interface while an ingest runs.
#[derive(Debug, Clone)]
pub struct ProgressEvent {
    pub current_file: String,
    pub current_index: usize,
    pub total: usize,
    pub bytes_copied: u64,
    pub total_bytes: u64,
    pub current_file_bytes: u64,
    pub current_file_total: u64,
    pub elapsed_secs: u64,
    pub status: String,
}

/// How an ingest ended.
#[derive(Debug, Clone)]
pub struct IngestResult {
    pub success_count: usize,
    pub skipped_count: usize,
    pub error_count: usize,
    pub errors: Vec<String>,
    pub log_path: String,
    /// True when the user stopped the run before every operation was reached.
    pub cancelled: bool,
    /// Operations never started, non-zero only when `cancelled`.
    pub remaining_count: usize,
}

/// The user's saved preferences.
#[derive(Debug, Clone)]
pub struct Settings {
    pub last_destination: Option<String>,
    pub default_operation: String,
    pub skip_duplicates_default: bool,
    pub theme: String,
}

impl Default for Settings {
    fn default() -> (s: Self)
        ensures
            s.last_destination is None,
            s.default_operation@ == "copy"@,
            s.skip_duplicates_default,
            s.theme@ == "system"@,
    {
        Settings {
            last_destination: None,
            default_operation: String::from_str("copy"),
            skip_duplicates_default: true,
            theme: String::from_str("system"),
        }
    }
}

/// Where the settings are kept: `<config dir>/ingst/settings.json`.
pub fn settings_file(config_dir: &str) -> (r: String)
    ensures
        r@ == crate::paths::join(crate::paths::join(config_dir@, "ingst"@), "settings.json"@),
{
    let c = crate::text::chars_of(config_dir);
    let a = crate::paths::join_chars(&c, &crate::text::chars_of("ingst"));
    let b = crate::paths::join_chars(&a, &crate::text::chars_of("settings.json"));
    crate::text::string_from(&b)
}

/// A mounted volume offered as a source.
#[derive(Debug, Clone)]
pub struct MountedVolume {
    pub path: String,
    pub name: String,
    pub is_removable: bool,
    pub total_space: u64,
    pub free_space: u64,
}

} // verus!
