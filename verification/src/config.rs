//! The repository configuration: the id prefix, defaults for new issues,
//! the active storage-version marker, and display and git sub-settings.
//!
//! Reading and writing the configuration file lives with the caller; this
//! module holds the settings themselves and their defaults.

use vstd::prelude::*;

verus! {

/// Which persistence backend a repository uses.
#[derive(Debug, Clone, Copy, PartialEq, Eq, Structural)]
pub enum StorageVersion {
    /// The flat-file backend: one line-delimited file.
    V1,
    /// The document backend: one mergeable file per issue.
    V2,
}

impl Default for StorageVersion {
    /// Repositories start on the flat-file backend.
    fn default() -> (r: Self)
        ensures
            r == StorageVersion::V1,
    {
        StorageVersion::V1
    }
}

/// Git-related settings.
#[derive(Debug)]
pub struct GitConfig {
    /// Stage the tracker directory automatically after changes.
    pub auto_stage: bool,
    /// Branch to sync to, when different from the current one.
    pub sync_branch: Option<String>,
}

impl Default for GitConfig {
    fn default() -> (r: Self)
        ensures
            r.auto_stage == false,
            r.sync_branch is None,
    {
        GitConfig { auto_stage: false, sync_branch: None }
    }
}

/// Display settings.
#[derive(Debug)]
pub struct DisplayConfig {
    /// Use colors in output.
    pub colors: bool,
    /// Date format for display.
    pub date_format: String,
    /// Show the issue count in list headers.
    pub show_count: bool,
    /// Longest title shown before truncation.
    pub max_title_length: usize,
}

impl Default for DisplayConfig {
    fn default() -> (r: Self)
        ensures
            r.colors == true,
            r.date_format@ == "%Y-%m-%d %H:%M"@,
            r.show_count == true,
            r.max_title_length == 80,
    {
        DisplayConfig {
            colors: true,
            date_format: String::from_str("%Y-%m-%d %H:%M"),
            show_count: true,
            max_title_length: 80,
        }
    }
}

/// The whole configuration.
#[derive(Debug)]
pub struct Config {
    /// Issue id prefix for this repository.
    pub prefix: String,
    /// Priority given to new issues.
    pub default_priority: u8,
    /// Type name given to new issues.
    pub default_type: String,
    /// Commit automatically after mutations.
    pub auto_sync: bool,
    /// Commit message template for automatic commits.
    pub sync_message_template: String,
    /// Show closed issues in listings by default.
    pub show_closed: bool,
    /// Editor command for editing descriptions.
    pub editor: Option<String>,
    /// Which backend the repository's files are in.
    pub storage_version: StorageVersion,
    /// Git-related settings.
    pub git: GitConfig,
    /// Display settings.
    pub display: DisplayConfig,
}

impl Default for Config {
    fn default() -> (r: Self)
        ensures
            r.prefix@ == "trx"@,
            r.default_priority == 2,
            r.default_type@ == "task"@,
            r.auto_sync == false,
            r.show_closed == false,
            r.editor is None,
            r.storage_version == StorageVersion::V1,
            r.git.auto_stage == false,
            r.git.sync_branch is None,
    {
        Config {
            prefix: String::from_str("trx"),
            default_priority: 2,
            default_type: String::from_str("task"),
            auto_sync: false,
            sync_message_template: String::from_str("trx: {action} {id}"),
            show_closed: false,
            editor: None,
            storage_version: StorageVersion::V1,
            git: Default::default(),
            display: Default::default(),
        }
    }
}

impl Config {
    /// The text of a fresh configuration file, with explanatory comments:
    /// exactly this constant.
    pub fn default_with_comments() -> (r: String)
        ensures
            (r@ == "# trx configuration\n\n# Issue ID prefix (e.g., \"trx\", \"myproject\")\nprefix = \"trx\"\n\n# Default priority for new issues (0=critical, 1=high, 2=medium, 3=low, 4=backlog)\ndefault_priority = 2\n\n# Default issue type (bug, feature, task, epic, chore)\ndefault_type = \"task\"\n\n# Auto-sync after mutations (git add + commit)\nauto_sync = false\n\n# Sync commit message template\n# Variables: {action}, {id}, {title}\nsync_message_template = \"trx: {action} {id}\"\n\n# Show closed issues in list by default\nshow_closed = false\n\n# Editor command for editing descriptions (uses $EDITOR if not set)\n# editor = \"vim\"\n\n[git]\n# Automatically stage .trx/ after changes\nauto_stage = false\n\n# Branch to sync to (if different from current)\n# sync_branch = \"main\"\n\n[display]\n# Use colors in output\ncolors = true\n\n# Date format for display (strftime format)\ndate_format = \"%Y-%m-%d %H:%M\"\n\n# Show issue count in list header\nshow_count = true\n\n# Maximum title length before truncation\nmax_title_length = 80\n"@),
    {
        let r = String::from_str(
            "# trx configuration\n\n# Issue ID prefix (e.g., \"trx\", \"myproject\")\nprefix = \"trx\"\n\n# Default priority for new issues (0=critical, 1=high, 2=medium, 3=low, 4=backlog)\ndefault_priority = 2\n\n# Default issue type (bug, feature, task, epic, chore)\ndefault_type = \"task\"\n\n# Auto-sync after mutations (git add + commit)\nauto_sync = false\n\n# Sync commit message template\n# Variables: {action}, {id}, {title}\nsync_message_template = \"trx: {action} {id}\"\n\n# Show closed issues in list by default\nshow_closed = false\n\n# Editor command for editing descriptions (uses $EDITOR if not set)\n# editor = \"vim\"\n\n[git]\n# Automatically stage .trx/ after changes\nauto_stage = false\n\n# Branch to sync to (if different from current)\n# sync_branch = \"main\"\n\n[display]\n# Use colors in output\ncolors = true\n\n# Date format for display (strftime format)\ndate_format = \"%Y-%m-%d %H:%M\"\n\n# Show issue count in list header\nshow_count = true\n\n# Maximum title length before truncation\nmax_title_length = 80\n",
        );
        r
    }
}

} // verus!
