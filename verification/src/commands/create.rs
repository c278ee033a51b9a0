//! `/create`: parses a command text into channels and describes it.
use vstd::prelude::*;
use crate::commands::{CommandDataOption, CommandOptionSpec, CommandSpec, OptionKind, OptionValue};
use crate::bot::channel_data::ChannelInfo;
use crate::parse::parse_to_channel::{channel_views, parse_to_channel_spec, try_parse_to_channel};
use crate::parse::parse_to_text::{parse_to_text_spec, try_parse_to_text};
use crate::text::{chars_eq, chars_of};

verus! {

pub fn register(command: &mut CommandSpec)
    ensures
        final(command).name@ == "create"@,
        final(command).description@ == "Create channels with given command"@,
        final(command).dm_permission == Some(false),
        final(command).options@.len() == old(command).options@.len() + 1,
        final(command).options@.drop_last() == old(command).options@,
        final(command).options@.last().name@ == "string"@,
        final(command).options@.last().description@ == "command list for channel creation"@,
        final(command).options@.last().kind == OptionKind::String,
        final(command).options@.last().required,
{
    command.name = "create".to_string();
    command.description = "Create channels with given command".to_string();
    command.dm_permission = Some(false);
    command.options.push(
        CommandOptionSpec {
            name: "string".to_string(),
            description: "command list for channel creation".to_string(),
            kind: OptionKind::String,
            required: true,
        },
    );
    assert(command.options@.drop_last() =~= old(command).options@);
}

/// `run` does not panic on these options: the first option has a value, and a
/// text value parses without panicking.
pub open spec fn run_ok(options: Seq<CommandDataOption>) -> bool {
    &&& options.len() > 0
    &&& options[0].resolved is Some
    &&& (options[0].resolved matches Some(OptionValue::String(v)) ==> {
        &&& parse_to_text_spec(v@) is Some
        &&& parse_to_channel_spec(v@) is Some
    })
}

/// What `run` replies for the options: for a text value, the channels it
/// describes (or the parse error) and its description; otherwise an error.
pub open spec fn run_spec(
    options: Seq<CommandDataOption>,
    r: (Result<Vec<ChannelInfo>, &'static str>, String),
) -> bool {
    match options[0].resolved {
        Some(OptionValue::String(v)) => {
            &&& r.1@ == parse_to_text_spec(v@)->0
            &&& parse_to_channel_spec(v@) == Some(
                match r.0 {
                    Ok(list) => Ok(channel_views(list@)),
                    Err(_) => Err(()),
                },
            )
            &&& (r.0 matches Err(e) ==> e@ == "Could not properly parse input"@)
        },
        _ => {
            &&& r.0 matches Err(e) && e@ == "Failed to get values."@
            &&& r.1@ == "No value was given. Parsing will happen here"@
        },
    }
}

/// Runs `/create` on its options, or returns `None` on the options on which
/// `run` panics.
pub fn try_run(options: &[CommandDataOption]) -> (r: Option<(Result<Vec<ChannelInfo>, &'static str>, String)>)
    ensures
        r is Some <==> run_ok(options@),
        r matches Some(res) ==> run_spec(options@, res),
{
    if options.len() == 0 {
        return None;
    }
    match &options[0].resolved {
        None => None,
        Some(OptionValue::String(value)) => {
            let reply = match try_parse_to_text(value) {
                Some(t) => t,
                None => {
                    return None;
                },
            };
            match try_parse_to_channel(value) {
                Some(channels) => Some((channels, reply)),
                None => None,
            }
        },
        Some(OptionValue::Other) => Some(
            (Err("Failed to get values."), "No value was given. Parsing will happen here".to_string()),
        ),
    }
}

/// Parses the command text of `/create` into channels and a description of it.
pub fn run(options: &[CommandDataOption]) -> (r: (Result<Vec<ChannelInfo>, &'static str>, String))
    requires
        run_ok(options@),
    ensures
        run_spec(options@, r),
{
    match try_run(options) {
        Some(r) => r,
        None => {
            proof {
                assert(false);
            }
            (Err("Failed to get values."), String::new())
        },
    }
}

/// What a click on the buttons under the `/create` reply asks for.
#[derive(Clone, Copy, Debug, PartialEq, Eq, Structural)]
pub enum ButtonAction {
    Accept,
    Reject,
    Ignore,
}

/// The action of the button with the given id.
pub fn button_action(custom_id: &str) -> (r: ButtonAction)
    ensures
        r == (if custom_id@ == "Accept"@ {
            ButtonAction::Accept
        } else if custom_id@ == "Reject"@ {
            ButtonAction::Reject
        } else {
            ButtonAction::Ignore
        }),
{
    let id = chars_of(custom_id);
    if chars_eq(&id, &chars_of("Accept")) {
        ButtonAction::Accept
    } else if chars_eq(&id, &chars_of("Reject")) {
        ButtonAction::Reject
    } else {
        ButtonAction::Ignore
    }
}

} // verus!
