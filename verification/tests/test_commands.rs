use chord::commands::accept::{channel_requests, CategoryStep, ChannelPlan, KnownCategories, Request};
use chord::commands::setup::SetupSession;
use chord::bot::bot_data::{ParsedData, PermissionData, PermissionSetup};
use chord::bot::channel_data::ChannelInfo;
use chord::bot::start_bot::{FollowUp, Handler, Route};
use chord::commands::accept::{
    do_private, everyone_role, overwrites_for, plan_channel, remove_all_permissions,
    role_ids_named, GuildRole, PermissionOverwrite,
};
use chord::commands::create::{button_action, try_run, ButtonAction};
use chord::commands::setup::{apply_reply, empty_setup};
use chord::commands::{
    check_setup, copy, create, example, help, setup, start, CommandDataOption, CommandSpec,
    OptionKind, OptionValue,
};
use chord::parse::parse_to_channel;
use chord::utility::sub_func::ButtonStyle;
use chord::utility::{get_perm_list, normal_button, polish_channel};

#[test]
fn polish_collapses_whitespace() {
    assert_eq!(polish_channel("  my  new\tchannel "), "my-new-channel");
    assert_eq!(polish_channel("a - b"), "a-b");
    assert_eq!(polish_channel("--"), "-");
    assert_eq!(polish_channel("x--y -z"), "x-y-z");
    assert_eq!(polish_channel(&polish_channel(" x  y ")), polish_channel(" x  y "));
}

#[test]
fn permission_list_has_eight_entries() {
    let list = get_perm_list();
    assert_eq!(list.len(), 8);
    assert_eq!(list[0], ("Send Message", 0x800));
    assert_eq!(list[7], ("Use Application Commands", 0x80000000));
}

#[test]
fn button_uses_its_name() {
    let b = normal_button("Accept", ButtonStyle::Primary);
    assert_eq!(b.custom_id, "Accept");
    assert_eq!(b.label, "Accept");
    assert_eq!(b.style, ButtonStyle::Primary);
}

#[test]
fn setup_answers_add_permissions() {
    let s = apply_reply(empty_setup(), "Allow Public, Deny Private", 0x800);
    assert_eq!(s, PermissionSetup { public_allow: 0x800, public_deny: 0, private_allow: 0, private_deny: 0x800 });
    let s = apply_reply(s, "Deny For Both", 0x10);
    assert_eq!(s, PermissionSetup { public_allow: 0x800, public_deny: 0x10, private_allow: 0, private_deny: 0x810 });
    assert_eq!(apply_reply(s, "Keep Default/Unchanged", 0x10), s);
    assert_eq!(apply_reply(apply_reply(s, "Allow For Both", 4), "Allow For Both", 4), apply_reply(s, "Allow For Both", 4));
}

#[test]
fn parsed_data_read_after_write() {
    let mut store = ParsedData::new();
    assert!(!store.contains_key(7));
    store.insert(7, parse_to_channel("-ch a -ch b".to_string()).unwrap());
    store.insert(8, Vec::new());
    assert_eq!(store.get(7).map(|v| v.len()), Some(2));
    assert_eq!(store.get(8).map(|v| v.len()), Some(0));
    store.remove(7);
    assert!(store.get(7).is_none());
    assert!(store.contains_key(8));
}

#[test]
fn permission_data_read_after_write() {
    let mut store = PermissionData::new();
    assert_eq!(store.get(1), None);
    let s = apply_reply(empty_setup(), "Allow For Public", 0x800);
    store.insert(1, s);
    assert_eq!(store.get(1), Some(s));
    assert_eq!(store.get(2), None);
}

#[test]
fn handler_routes_commands() {
    assert_eq!(Handler::route("create"), Route::Create);
    assert_eq!(Handler::route("check_setup"), Route::CheckSetup);
    assert_eq!(Handler::route("copy"), Route::Unknown);
    assert_eq!(Handler::unknown_reply(), "Command not found");
    assert_eq!(Handler::reply_buttons(Route::Create, true).len(), 2);
    assert_eq!(Handler::reply_buttons(Route::Create, false).len(), 0);
    assert_eq!(Handler::reply_buttons(Route::Help, true).len(), 0);
    assert_eq!(Handler::follow_up(Route::Create, true), FollowUp::AwaitCreateButtons);
    assert_eq!(Handler::follow_up(Route::Setup, false), FollowUp::RunPermissionSetup);
    assert_eq!(Handler::follow_up(Route::Start, true), FollowUp::Nothing);
    let names: Vec<String> = Handler::commands().into_iter().map(|c| c.name).collect();
    assert_eq!(names, vec!["create", "help", "start", "example", "setup", "check_setup"]);
}

#[test]
fn commands_register_their_names() {
    let mut c = CommandSpec::new();
    create::register(&mut c);
    assert_eq!(c.name, "create");
    assert_eq!(c.description, "Create channels with given command");
    assert_eq!(c.dm_permission, Some(false));
    assert_eq!(c.options.len(), 1);
    assert_eq!(c.options[0].name, "string");
    assert_eq!(c.options[0].kind, OptionKind::String);
    assert!(c.options[0].required);
    let mut c = CommandSpec::new();
    copy::register(&mut c);
    assert_eq!(c.name, "copy");
    assert_eq!(c.dm_permission, Some(false));
    let mut c = CommandSpec::new();
    check_setup::register(&mut c);
    assert_eq!(c.description, "Shows what setup was configured");
    assert_eq!(c.dm_permission, None);
}

#[test]
fn commands_reply_texts() {
    assert!(help::run(&[]).starts_with("**How to Use the /create Command**"));
    assert!(start::run(&[]).starts_with("Chord is a Discord bot"));
    assert!(example::run(&[]).starts_with("Below are some example commands"));
    assert_eq!(
        setup::run(&[]),
        "A series of messages will be sent. Click on the appropriate button for permission confirmation"
    );
    assert_eq!(copy::run(&[]), "Processing channels...");
}

fn text_option(text: &str) -> Vec<CommandDataOption> {
    vec![CommandDataOption { name: "string".to_string(), resolved: Some(OptionValue::String(text.to_string())) }]
}

#[test]
fn create_parses_its_option() {
    let (channels, reply) = create::run(&text_option("-ch a"));
    assert_eq!(channels.unwrap().len(), 1);
    assert_eq!(reply, "These data were detected\n\nPrivate: No\nChannels:\n    a: \n\n");
    let other = vec![CommandDataOption { name: "string".to_string(), resolved: Some(OptionValue::Other) }];
    let (channels, reply) = create::run(&other);
    assert_eq!(channels.err(), Some("Failed to get values."));
    assert_eq!(reply, "No value was given. Parsing will happen here");
    assert!(try_run(&[]).is_none());
    assert!(try_run(&text_option("-p -t")).is_none());
}

#[test]
fn create_buttons() {
    assert_eq!(button_action("Accept"), ButtonAction::Accept);
    assert_eq!(button_action("Reject"), ButtonAction::Reject);
    assert_eq!(button_action("other"), ButtonAction::Ignore);
}

fn roles() -> Vec<GuildRole> {
    vec![
        GuildRole { id: 1, name: "@everyone".to_string() },
        GuildRole { id: 2, name: "admin".to_string() },
        GuildRole { id: 3, name: "member".to_string() },
    ]
}

#[test]
fn accept_overwrites() {
    assert_eq!(do_private(9), vec![PermissionOverwrite { allow: 0, deny: 0x100400, role: 9 }]);
    assert_eq!(remove_all_permissions(9), vec![PermissionOverwrite { allow: 0, deny: 0, role: 9 }]);
    assert_eq!(everyone_role(&roles()), Some(1));
    assert_eq!(everyone_role(&Vec::new()), None);
    assert_eq!(role_ids_named(&roles(), &vec!["member".to_string(), "admin".to_string()]), vec![2, 3]);
    let public = overwrites_for(&vec![2], false, None);
    assert_eq!(public, vec![PermissionOverwrite { allow: 0x10c00, deny: 0x1810022030, role: 2 }]);
    let private = overwrites_for(&vec![2, 3], true, None);
    assert_eq!(private[1], PermissionOverwrite { allow: 0x10c00, deny: 0, role: 3 });
    let saved = PermissionSetup { public_allow: 1, public_deny: 2, private_allow: 4, private_deny: 8 };
    assert_eq!(overwrites_for(&vec![3], true, Some(saved))[0], PermissionOverwrite { allow: 4, deny: 8, role: 3 });
}

#[test]
fn accept_plans_channels() {
    let channels = parse_to_channel("-cat c -p -r admin -ch one -ch two -r member".to_string()).unwrap();
    let plan = plan_channel(&channels[0], &roles());
    assert_eq!(plan.category_roles, vec![2]);
    assert!(plan.category_private);
    assert!(!plan.reset_permissions);
    assert!(plan.private);
    assert_eq!(plan.channel_roles, vec![2]);
    let plan = plan_channel(&channels[1], &roles());
    assert!(plan.reset_permissions);
    assert_eq!(plan.channel_roles, vec![3]);
    let plain = plan_channel(&ChannelInfo::default(), &roles());
    assert!(!plain.private);
    assert!(plain.category_roles.is_empty());
}

#[test]
fn check_setup_without_setup() {
    assert_eq!(
        chord::commands::check_setup::run(None),
        "You have not setup any permissions. Use /setup to do so."
    );
}

#[test]
fn check_setup_lists_recorded_permissions() {
    let saved = PermissionSetup {
        public_allow: 0x800,
        public_deny: 0,
        private_allow: 0x800 | 0x10,
        private_deny: 0,
    };
    assert_eq!(
        chord::commands::check_setup::run(Some(saved)),
        "**Allowed for Public Channel:** Send Message\n\n**Denied for Public Channel**: None\n\n**Allowed for Private Channel:** Manage Channel and Send Message\n\n**Denied for Private Channel**: None\n\n"
    );
}

#[test]
fn known_categories_are_used_again() {
    let mut known = KnownCategories::new();
    assert_eq!(known.step(None), CategoryStep::NoCategory);
    assert_eq!(known.step(Some("main")), CategoryStep::Create);
    known.record("main", 7);
    assert_eq!(known.step(Some("main")), CategoryStep::Existing(7));
    known.record("main", 9);
    assert_eq!(known.step(Some("main")), CategoryStep::Existing(9));
    assert_eq!(known.step(Some("other")), CategoryStep::Create);
}

#[test]
fn requests_for_a_private_channel_in_a_new_category() {
    let plan = ChannelPlan {
        category_roles: vec![5],
        category_private: true,
        reset_permissions: true,
        private: true,
        channel_roles: vec![6],
    };
    let reqs = channel_requests(CategoryStep::Create, &plan, 1, None);
    assert_eq!(reqs.len(), 6);
    match &reqs[0] {
        Request::CreateCategory(o) => {
            assert_eq!(o, &vec![PermissionOverwrite { allow: 0, deny: 0x400 | 0x100000, role: 1 }])
        }
        _ => panic!("category first"),
    }
    assert!(matches!(&reqs[1], Request::CategoryOverwrites(o) if o.len() == 1 && o[0].role == 5));
    assert!(matches!(&reqs[2], Request::CreateChannel));
    assert!(matches!(&reqs[3], Request::SetChannelPermissions(o) if o == &vec![PermissionOverwrite { allow: 0, deny: 0, role: 1 }]));
    assert!(matches!(&reqs[4], Request::SetChannelPermissions(o) if o[0].deny == 0x400 | 0x100000));
    assert!(matches!(&reqs[5], Request::ChannelOverwrites(o) if o.len() == 1 && o[0].role == 6));
}

#[test]
fn requests_for_a_plain_channel() {
    let plan = ChannelPlan {
        category_roles: vec![],
        category_private: false,
        reset_permissions: false,
        private: false,
        channel_roles: vec![],
    };
    let reqs = channel_requests(CategoryStep::NoCategory, &plan, 1, None);
    assert_eq!(reqs.len(), 2);
    assert!(matches!(&reqs[0], Request::CreateChannel));
    assert!(matches!(&reqs[1], Request::ChannelOverwrites(o) if o.is_empty()));
    let reqs = channel_requests(CategoryStep::Existing(9), &plan, 1, None);
    assert_eq!(reqs.len(), 3);
    assert!(matches!(&reqs[0], Request::CategoryOverwrites(_)));
}

#[test]
fn setup_session_asks_each_permission_once() {
    let mut session = SetupSession::new();
    let mut asked = Vec::new();
    while let Some((name, _)) = session.question() {
        asked.push(name);
        let reply = match asked.len() {
            1 => Some("Allow For Both"),
            2 => Some("Deny Public, Allow Private"),
            3 => None,
            _ => Some("Keep Default/Unchanged"),
        };
        session.answer(reply);
    }
    assert_eq!(asked.len(), 8);
    assert_eq!(asked[0], "Send Message");
    let s = session.result();
    assert_eq!(s.public_allow, 0x800);
    assert_eq!(s.private_allow, 0x800 | 0x10);
    assert_eq!(s.public_deny, 0x10);
    assert_eq!(s.private_deny, 0);
    assert_eq!(s.public_allow & s.public_deny, 0);
}
