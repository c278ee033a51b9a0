//! The decisions of the bot's event handler: which commands it registers, which
//! command an interaction runs, and what follows the reply.
use vstd::prelude::*;
use crate::commands::{CommandSpec, OptionKind};
use crate::commands::{check_setup, create, example, help, setup, start};
use crate::text::{chars_eq, chars_of};
use crate::utility::sub_func::{normal_button, Button, ButtonStyle};

verus! {

/// The bot's event handler.
pub struct Handler;

/// The command an interaction names.
#[derive(Clone, Copy, Debug, PartialEq, Eq, Structural)]
pub enum Route {
    Create,
    Help,
    Start,
    Example,
    Setup,
    CheckSetup,
    Unknown,
}

/// What the handler does after replying.
#[derive(Clone, Copy, Debug, PartialEq, Eq, Structural)]
pub enum FollowUp {
    Nothing,
    AwaitCreateButtons,
    RunPermissionSetup,
}

pub open spec fn route_spec(name: Seq<char>) -> Route {
    if name == "create"@ {
        Route::Create
    } else if name == "help"@ {
        Route::Help
    } else if name == "start"@ {
        Route::Start
    } else if name == "example"@ {
        Route::Example
    } else if name == "setup"@ {
        Route::Setup
    } else if name == "check_setup"@ {
        Route::CheckSetup
    } else {
        Route::Unknown
    }
}

impl Handler {
    /// The command a slash-command name selects.
    pub fn route(name: &str) -> (r: Route)
        ensures
            r == route_spec(name@),
    {
        let n = chars_of(name);
        if chars_eq(&n, &chars_of("create")) {
            Route::Create
        } else if chars_eq(&n, &chars_of("help")) {
            Route::Help
        } else if chars_eq(&n, &chars_of("start")) {
            Route::Start
        } else if chars_eq(&n, &chars_of("example")) {
            Route::Example
        } else if chars_eq(&n, &chars_of("setup")) {
            Route::Setup
        } else if chars_eq(&n, &chars_of("check_setup")) {
            Route::CheckSetup
        } else {
            Route::Unknown
        }
    }

    /// The reply to an unknown command.
    pub fn unknown_reply() -> (r: String)
        ensures
            r@ == "Command not found"@,
    {
        "Command not found".to_string()
    }

    /// The buttons under the reply: `Accept` and `Reject` after a `/create` whose
    /// text parsed, none otherwise.
    pub fn reply_buttons(route: Route, parse_success: bool) -> (r: Vec<Button>)
        ensures
            route == Route::Create && parse_success ==> {
                &&& r@.len() == 2
                &&& r@[0].custom_id@ == "Accept"@ && r@[0].label@ == "Accept"@
                &&& r@[0].style == ButtonStyle::Primary
                &&& r@[1].custom_id@ == "Reject"@ && r@[1].label@ == "Reject"@
                &&& r@[1].style == ButtonStyle::Danger
            },
            !(route == Route::Create && parse_success) ==> r@.len() == 0,
    {
        let mut r: Vec<Button> = Vec::new();
        if route == Route::Create && parse_success {
            r.push(normal_button("Accept", ButtonStyle::Primary));
            r.push(normal_button("Reject", ButtonStyle::Danger));
        }
        r
    }

    /// What follows the reply: the `/create` buttons are awaited after a text
    /// that parsed, and `/setup` asks its questions.
    pub fn follow_up(route: Route, parse_success: bool) -> (r: FollowUp)
        ensures
            r == (if route == Route::Create && parse_success {
                FollowUp::AwaitCreateButtons
            } else if route == Route::Setup {
                FollowUp::RunPermissionSetup
            } else {
                FollowUp::Nothing
            }),
    {
        if route == Route::Create && parse_success {
            FollowUp::AwaitCreateButtons
        } else if route == Route::Setup {
            FollowUp::RunPermissionSetup
        } else {
            FollowUp::Nothing
        }
    }

    /// The commands registered when the bot is ready, in order: create, help,
    /// start, example, setup and check_setup.
    pub fn commands() -> (r: Vec<CommandSpec>)
        ensures
            r@.len() == 6,
            r@[0].name@ == "create"@,
            r@[0].description@ == "Create channels with given command"@,
            r@[0].dm_permission == Some(false),
            r@[0].options@.len() == 1,
            r@[0].options@[0].name@ == "string"@,
            r@[0].options@[0].description@ == "command list for channel creation"@,
            r@[0].options@[0].kind == OptionKind::String,
            r@[0].options@[0].required,
            r@[1].name@ == "help"@,
            r@[1].description@ == "This is a help command"@,
            r@[2].name@ == "start"@,
            r@[2].description@ == "Shows relevant command of the bot"@,
            r@[3].name@ == "example"@,
            r@[3].description@ == "Check examples of the accepted commands"@,
            r@[4].name@ == "setup"@,
            r@[4].description@ == "Setup the default permissions for channels"@,
            r@[4].dm_permission == Some(false),
            r@[5].name@ == "check_setup"@,
            r@[5].description@ == "Shows what setup was configured"@,
            forall|k: int| 1 <= k < 6 ==> (#[trigger] r@[k]).options@.len() == 0,
            forall|k: int| 1 <= k < 6 && k != 4 ==> (#[trigger] r@[k]).dm_permission is None,
    {
        let mut r: Vec<CommandSpec> = Vec::new();
        let mut c = CommandSpec::new();
        create::register(&mut c);
        r.push(c);
        let mut c = CommandSpec::new();
        help::register(&mut c);
        r.push(c);
        let mut c = CommandSpec::new();
        start::register(&mut c);
        r.push(c);
        let mut c = CommandSpec::new();
        example::register(&mut c);
        r.push(c);
        let mut c = CommandSpec::new();
        setup::register(&mut c);
        r.push(c);
        let mut c = CommandSpec::new();
        check_setup::register(&mut c);
        r.push(c);
        assert(r@[0].options@.drop_last() =~= Seq::<crate::commands::CommandOptionSpec>::empty());
        r
    }
}

} // verus!
