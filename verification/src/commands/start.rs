//! `/start`: what the bot is and which commands it has.
use vstd::prelude::*;
use crate::commands::{CommandDataOption, CommandSpec};

verus! {

pub const START_TEXT: &'static str = "Chord is a Discord bot designed to create categories and channels in a guild with a CLI-like command. It is primarily aimed at reducing manual labor when creating multiple channels. 
    
Following commands are available
    
**/create:** Accepts a command string for creating categories and channels
**/setup:** Setup permissions for guilds
**/check_setup:** Shows the permission that was set
**/help:** Shows the parameters that are recognized
**/example:** Get some examples of what kind of commands are recognized

Source code: <https://github.com/TheRustyPickle/Chord>

Facing any bugs, issues or have a feedback? Create an issue on github.
";

pub fn register(command: &mut CommandSpec)
    ensures
        final(command).name@ == "start"@,
        final(command).description@ == "Shows relevant command of the bot"@,
        final(command).dm_permission == old(command).dm_permission,
        final(command).options@ == old(command).options@,
{
    command.name = "start".to_string();
    command.description = "Shows relevant command of the bot".to_string();
}

pub fn run(_options: &[CommandDataOption]) -> (r: String)
    ensures
        r@ == START_TEXT@,
{
    START_TEXT.to_string()
}

} // verus!
