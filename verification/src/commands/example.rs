//! `/example`: example command texts for `/create`.
use vstd::prelude::*;
use crate::commands::{CommandDataOption, CommandSpec};

verus! {

pub const EXAMPLE_TEXT: &'static str = "Below are some example commands the bot can understand. Try each of them individually or combine them as one command to see the bot in action.
    
**Command:** -cat my category -p -r admin, member -ch general -ch memes -t text

**Explanation:** Creates a private category called 'my category' and channels 'general' and 'memes' within that category. Both 'admin' and 'member' roles will have access to these channels. The channels will be of type 'text'.

**Command:** -cat main chat -ch member-chat -ch admin-chat -r admin -p -t voice

**Explanation:** Creates a public category named 'main chat' where everyone has access to the 'member chat'. Additionally, it creates a private channel named 'admin-chat' within the category, accessible only to users with the 'admin' role. The channels will be of type 'voice'.

**Command:** -cat supporters chat -r supporter -p -ch general-supporter -r @everyone -ch supporter-announcement -t ann 

**Explanation:** Creates a private category named 'supporters' and grants access to users with the 'supporter' role. Within the category, it creates a channel called 'general-supporter' that is accessible to everyone. It also creates an announcement channel named 'supporter-announcement' within the category, which is exclusively accessible to users with the 'supporter' role. The 'supporter-announcement' channel is of type 'announcement'.";

pub fn register(command: &mut CommandSpec)
    ensures
        final(command).name@ == "example"@,
        final(command).description@ == "Check examples of the accepted commands"@,
        final(command).dm_permission == old(command).dm_permission,
        final(command).options@ == old(command).options@,
{
    command.name = "example".to_string();
    command.description = "Check examples of the accepted commands".to_string();
}

pub fn run(_options: &[CommandDataOption]) -> (r: String)
    ensures
        r@ == EXAMPLE_TEXT@,
{
    EXAMPLE_TEXT.to_string()
}

} // verus!
