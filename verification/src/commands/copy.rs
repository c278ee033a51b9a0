//! `/copy`: writes a guild's channels as a `/create` command text.
use vstd::prelude::*;
use crate::commands::{CommandDataOption, CommandSpec};

verus! {

pub const COPY_TEXT: &'static str = "Processing channels...";

pub fn register(command: &mut CommandSpec)
    ensures
        final(command).name@ == "copy"@,
        final(command).description@ == "Copy's a guild's channel structure"@,
        final(command).dm_permission == Some(false),
        final(command).options@ == old(command).options@,
{
    command.name = "copy".to_string();
    command.description = "Copy's a guild's channel structure".to_string();
    command.dm_permission = Some(false);
}

pub fn run(_options: &[CommandDataOption]) -> (r: String)
    ensures
        r@ == COPY_TEXT@,
{
    COPY_TEXT.to_string()
}

} // verus!
