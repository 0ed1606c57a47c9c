//! The command-line interface: the commands, subcommands and options the
//! `clin` program accepts.
use std::path::PathBuf;
use vstd::prelude::*;

verus! {

#[verifier::external_type_specification]
#[verifier::external_body]
pub struct ExPathBuf(PathBuf);

/// Feature-packed terminal note management app inspired by Obsidian.
#[derive(Debug)]
pub struct Cli {
    /// Override the config file location for this run.
    pub config: Option<PathBuf>,

    /// Override the storage/vault path for this run (~ and $VAR expanded).
    pub vault: Option<PathBuf>,

    /// Force the first-run setup wizard, even if config already exists.
    pub setup: bool,

    pub command: Option<Command>,
}

#[derive(Debug)]
pub enum Command {
    /// Note operations.
    Notes {
        action: NotesCmd,
    },
    /// Storage / vault path management.
    Storage {
        action: StorageCmd,
    },
    /// Keybind management.
    Keybinds {
        action: KeybindsCmd,
    },
    /// Template management.
    Templates {
        action: TemplatesCmd,
    },
    /// Config management.
    Config {
        action: ConfigCmd,
    },
    /// Cached data management.
    Cache {
        action: CacheCmd,
    },
    /// Quick-capture a note into today's daily note (Obsidian Daily Notes
    /// plugin compatible).
    Jot {
        /// Text to append. May start with `-` (e.g. a markdown checklist
        /// item or bullet) without needing a `--` separator.
        text: String,
        /// Append as a raw block instead of a `[HH:MM]` timestamped entry.
        append: bool,
    },
    /// Contact notes (obsidian-contacts plugin Frontmatter Format).
    Contacts {
        action: ContactsCmd,
    },
    /// Checklist items across the vault (Obsidian Tasks plugin compatible
    /// subset: due/done dates, status, tags, priority, filtering, sorting).
    Tasks {
        action: TasksCmd,
    },
}

#[derive(Debug)]
pub enum TasksCmd {
    /// List checklist items across the vault.
    List {
        /// `open` (not done), `done`, or `all` (default: no status filter).
        status: Option<String>,
        /// Due-date filter, e.g. `before 2025-01-01`, `today`, `2025-01-01`.
        due: Option<String>,
        /// Done-date filter, same syntax as `--due`.
        done: Option<String>,
        /// Priority filter, e.g. `high`, `above none`, `not none`.
        priority: Option<String>,
        /// Require a tag (repeatable; combined with AND). `#` is optional.
        tags: Vec<String>,
        /// Only tasks whose note path contains this text.
        path: Option<String>,
        /// Sort key (repeatable, in priority order), e.g. `due`,
        /// `priority reverse`. Defaults to status/due/priority/path.
        sort: Vec<String>,
        /// Raw multi-line query in Tasks-plugin syntax (see
        /// <https://publish.obsidian.md/tasks/Queries/Filters>); when set,
        /// the flags above are ignored.
        query: Option<String>,
        /// Also print each task's note path and line number.
        verbose: bool,
    },
}

#[derive(Debug)]
pub enum ContactsCmd {
    /// List contacts whose birthday falls within a window of today.
    Birthdays {
        /// How far ahead to look: `today`, `week`, or `month`.
        window: String,
        /// Also print each match's note path and frontmatter line.
        verbose: bool,
        /// Moment.js-style format for the birthday date shown by the
        /// `week`/`month` windows (default: YYYY-MM-DD).
        date_format: Option<String>,
    },
}

#[derive(Debug)]
pub enum NotesCmd {
    /// List note titles.
    List,
    /// Create a new note and open it in the TUI.
    New {
        /// Create the note from this template.
        template: Option<String>,
        /// Initial body content. When set, the note is created and the TUI is not opened.
        body: Option<String>,
        /// Create the note and exit without opening the TUI.
        no_tui: bool,
        /// Optional title for the note.
        title: Option<String>,
    },
    /// Open a note by title in the TUI.
    Open {
        /// Title of the note to open.
        title: String,
    },
    /// Print a note's body to stdout.
    Cat {
        /// Title of the note to print (case-insensitive match).
        title: String,
    },
    /// Create a quick note from content and exit (no TUI).
    Quick {
        /// Body content of the note.
        content: String,
        /// Optional title for the note.
        title: Option<String>,
    },
    /// Search notes by title and content.
    Search {
        /// Query string.
        query: String,
    },
}

#[derive(Debug)]
pub enum StorageCmd {
    /// Show the current storage path.
    Show,
    /// Set a custom (absolute) storage path.
    SetPath { path: PathBuf },
    /// Reset to the default storage path.
    Reset,
    /// Migrate data from a previous storage location.
    Migrate,
}

#[derive(Debug)]
pub enum KeybindsCmd {
    /// Show current keybindings.
    Show,
    /// Export keybinds as TOML.
    Export,
    /// Reset keybinds to defaults.
    Reset,
}

#[derive(Debug)]
pub enum TemplatesCmd {
    /// List available templates.
    List,
    /// Create example templates.
    Init,
}

#[derive(Debug)]
pub enum ConfigCmd {
    /// Print the config file path.
    Show,
    /// Open the config file in $VISUAL or $EDITOR.
    Edit,
    /// Reset the configuration to default values.
    Reset,
}

#[derive(Debug)]
pub enum CacheCmd {
    /// Delete the vault's scoped note-summary cache and legacy cache locations. It rebuilds on next launch.
    Reset,
}

} // verus!
