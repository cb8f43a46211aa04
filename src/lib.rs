//! A line-oriented command dispatcher: a registry of named commands, a
//! tokenizer for `-flag value` pairs, a validator for required flags and a
//! built-in help command that describes every registered command.

pub mod commander;
pub mod descriptor;
pub mod flags;
pub mod help;
pub mod tokens;

pub use commander::{Command, Commander, Outcome, Report, Target};
pub use descriptor::{CommandInformation, Flag};
pub use flags::{
    first_missing_flag, parse_flags, same_text, verify_flags, FlagEntry, FlagError, FlagMap,
    ParsedFlags, FLAG_PREFIX,
};
pub use help::{HelpCommand, HelpPage};
pub use tokens::{is_separator_char, split_tokens};
