//! `clin`: Obsidian-vault note tooling. Tasks-plugin checklist items and
//! their query language, Daily Notes plugin note names and appends,
//! obsidian-contacts birthdays, note frontmatter, and the command line.
pub mod text;
pub mod date;
pub mod tasks;
pub mod tasks_query;
pub mod signifiers;
pub mod markdown;
pub mod daily_notes;
pub mod contacts;
pub mod frontmatter;
pub mod cli;
