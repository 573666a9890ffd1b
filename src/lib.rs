//! An in-process developer console: typed console variables, commands, a
//! tokenizer for command lines, a prefix tree and a fuzzy matcher for
//! lookup and completion, an access gate, and the decisions of the
//! execution pipeline.
pub mod aliases;
pub mod completion;
pub mod concommand;
pub mod console;
pub mod convar;
pub mod events;
pub mod matcher;
pub mod number;
pub mod permissions;
pub mod persist;
pub mod registry;
pub mod text;
pub mod tokenizer;
pub mod trie;

pub use aliases::CommandAliases;
pub use completion::{suggest_completions, CompletionSuggestion, MAX_COMPLETION_SUGGESTIONS};
pub use concommand::{CommandArgs, ConCommand, ConCommandMeta};
pub use console::{Console, Dispatch, QueuedCommand};
pub use convar::{ConVar, ConVarFlags, ConVarValue, StoredVar};
pub use events::{
    ConVarChangedEvent, ConsoleClearEvent, ConsoleInputEvent, ConsoleOutputEvent, ConsoleOutputLevel,
    ConsoleToggleEvent,
};
pub use matcher::{match_and_sort, subsequence_match, MatchResult};
pub use permissions::{ConsolePermissions, PermissionLevel};
pub use persist::{apply_config_to_registry, extract_archive_convars};
pub use registry::{CommandHandlers, ConEntry, ConVarMeta, ConsoleRegistry, Selection};
pub use tokenizer::{split_commands, tokenize, tokenize_string, TokenizeError, TokenizedCommand};
pub use trie::Trie;
