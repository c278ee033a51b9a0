//! The slash commands: how each is registered and what it replies.
pub mod accept;
pub mod check_setup;
pub mod copy;
pub mod create;
pub mod example;
pub mod help;
pub mod setup;
pub mod start;

use vstd::prelude::*;

verus! {

/// The type of value a command option takes.
#[derive(Clone, Copy, Debug, PartialEq, Eq, Structural)]
pub enum OptionKind {
    String,
}

/// An option of a slash command.
#[derive(Debug)]
pub struct CommandOptionSpec {
    pub name: String,
    pub description: String,
    pub kind: OptionKind,
    pub required: bool,
}

/// A slash command as it is registered: name, description, whether it may be
/// used in direct messages, and its options.
#[derive(Debug)]
pub struct CommandSpec {
    pub name: String,
    pub description: String,
    pub dm_permission: Option<bool>,
    pub options: Vec<CommandOptionSpec>,
}

impl CommandSpec {
    /// A command with nothing set.
    pub fn new() -> (r: Self)
        ensures
            r.name@ == Seq::<char>::empty(),
            r.description@ == Seq::<char>::empty(),
            r.dm_permission is None,
            r.options@.len() == 0,
    {
        CommandSpec {
            name: String::new(),
            description: String::new(),
            dm_permission: None,
            options: Vec::new(),
        }
    }
}

/// The value given for a command option.
#[derive(Debug)]
pub enum OptionValue {
    String(String),
    Other,
}

/// An option as it arrives with a command: its name and its resolved value.
#[derive(Debug)]
pub struct CommandDataOption {
    pub name: String,
    pub resolved: Option<OptionValue>,
}

} // verus!
