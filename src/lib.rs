pub mod cli;
pub mod context;
pub mod controller;
pub mod discovery;
pub mod ignore;
pub mod output;
pub mod pattern;
pub mod prompt;
pub mod text;
pub mod tree;

pub use cli::{config_from_command, split_list, Cli, Commands};
pub use context::{
    assemble_context, build_context_output, check_candidates, collect_contexts, count_tokens,
    format_output, select_files, ContextConfig, ContextError, ContextOutput, FileContext,
};
pub use controller::{Action, CancelReason, SessionState, TreeController};
pub use discovery::{generate_file_map, Discovery, DiscoveryConfig, EntryKind};
pub use ignore::{should_ignore_by_gitignore, IgnoreSet};
pub use output::{clipboard_preview, create_writer, ClipboardWriter, ConsoleWriter, FileWriter, Writer};
pub use pattern::matches_gitignore_pattern;
pub use prompt::{EditKey, PromptBuffer};
pub use tree::{CursorMove, FlattenedEntry, SelectionTree, TreeNode};
