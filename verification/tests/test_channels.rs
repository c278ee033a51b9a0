use chord::bot::channel_data::{CategoryInfo, ChannelInfo, ChannelKind};
use chord::parse::parse_to_channel::try_parse_to_channel;
use chord::parse::{parse_to_channel, parse_to_text, text_from_channels};
use chord::parse::parse_to_text::try_parse_to_text;

fn names(list: &[&str]) -> Option<Vec<String>> {
    Some(list.iter().map(|s| s.to_string()).collect())
}

#[test]
fn readme_example_gives_private_category_channels() {
    let channels =
        parse_to_channel("-cat my category -p -r admin, member -ch general -ch memes -t text".to_string())
            .unwrap();
    assert_eq!(channels.len(), 2);
    assert_eq!(channels[0].channel, "general");
    assert_eq!(channels[1].channel, "memes");
    for c in &channels {
        assert_eq!(c.get_category_name(), Some("my category"));
        assert_eq!(c.get_category_roles(), &names(&["admin", "member"]));
        assert!(c.get_category_private());
        assert_eq!(c.roles, None);
        assert_eq!(c.private, None);
        assert_eq!(c.channel_type, ChannelKind::Text);
    }
}

#[test]
fn channel_flags_override_category() {
    let channels =
        parse_to_channel("-cat main chat -ch member-chat -ch admin-chat -r admin -p -t voice".to_string())
            .unwrap();
    assert_eq!(channels.len(), 2);
    assert_eq!(channels[0].channel, "member-chat");
    assert!(!channels[0].get_category_private());
    assert_eq!(channels[1].channel, "admin-chat");
    assert_eq!(channels[1].roles, names(&["admin"]));
    assert_eq!(channels[1].private, Some(true));
    assert_eq!(channels[1].channel_type, ChannelKind::Voice);
    assert_eq!(channels[1].get_category_name(), Some("main chat"));
}

#[test]
fn channels_without_category() {
    let channels = parse_to_channel("-ch a -ch b".to_string()).unwrap();
    assert_eq!(channels.len(), 2);
    assert_eq!(channels[0].get_category_name(), None);
    assert_eq!(channels[1].channel, "b");
}

#[test]
fn line_breaks_separate_sections() {
    let channels = parse_to_channel("-cat A -ch x\n-cat B -ch y -p".to_string()).unwrap();
    assert_eq!(channels.len(), 2);
    assert_eq!(channels[0].get_category_name(), Some("A"));
    assert_eq!(channels[0].channel, "x");
    assert_eq!(channels[1].get_category_name(), Some("B"));
    assert_eq!(channels[1].private, Some(true));
}

#[test]
fn spaces_in_channel_names_become_dashes() {
    let channels = parse_to_channel("-ch my new channel -p".to_string()).unwrap();
    assert_eq!(channels[0].channel, "my-new-channel");
    assert_eq!(channels[0].private, Some(true));
}

#[test]
fn section_error_is_reported() {
    assert_eq!(
        parse_to_channel("-cat A -p bar -ch x".to_string()).err(),
        Some("Could not properly parse input")
    );
}

#[test]
fn channel_error_is_reported() {
    assert_eq!(
        parse_to_channel("-ch x -p junk".to_string()).err(),
        Some("Could not properly parse input")
    );
}

#[test]
fn trailing_type_flag_in_channel_is_reported() {
    assert!(try_parse_to_channel(&"-cat A -ch x -t".to_string()).is_none());
    assert!(try_parse_to_text(&"-cat A -p -t".to_string()).is_none());
}

#[test]
fn text_describes_sections() {
    let text = parse_to_text("-cat my category -p -r admin, member -ch general -ch memes -t text".to_string());
    assert_eq!(
        text,
        "These data were detected\n\nCategory: my category\nRoles: admin, member\nPrivate: Yes\nChannels:\n    general: \n    memes: Channel Type: Text\n\n"
    );
}

#[test]
fn text_marks_errors() {
    let text = parse_to_text("-cat A -p bar".to_string());
    assert_eq!(
        text,
        "These data were detected\n\nCategory: A\nPrivate: Yes\n\nError acquired in the upper section"
    );
}

#[test]
fn text_describes_channel_flags() {
    let text = parse_to_text("-ch one -r x, y -p -t ann".to_string());
    assert_eq!(
        text,
        "These data were detected\n\nPrivate: No\nChannels:\n    one: Roles: x, y Private: Yes Channel Type: Announcement\n\n"
    );
}

fn channel(name: &str, category: Option<&str>, kind: &str, private: bool) -> ChannelInfo {
    let mut c = ChannelInfo::default();
    let cat = category.map(|n| {
        let mut cat = CategoryInfo::default();
        cat.update_name(n);
        cat
    });
    c.update_name_category(name.to_string(), cat);
    c.update_channel_type(kind);
    if private {
        c.update_private();
    }
    c
}

#[test]
fn channels_are_written_back_as_a_command() {
    let text = text_from_channels(vec![
        channel("a", None, "text", false),
        channel("b", Some("X"), "voice", true),
        channel("c", None, "ann", false),
        channel("d", Some("Y"), "text", false),
        channel("e", Some("X"), "text", false),
    ]);
    assert_eq!(
        text,
        "-ch a -ch c -t ann\n\n-cat X -ch b -t voice -p -ch e\n\n-cat Y -ch d\n\n"
    );
}

#[test]
fn written_channels_parse_back() {
    let original = vec![channel("general", Some("Main"), "text", false), channel("memes", Some("Main"), "voice", true)];
    let text = text_from_channels(original);
    let channels = parse_to_channel(text).unwrap();
    assert_eq!(channels.len(), 2);
    assert_eq!(channels[0].channel, "general");
    assert_eq!(channels[1].channel, "memes");
    assert_eq!(channels[1].channel_type, ChannelKind::Voice);
    assert_eq!(channels[1].private, Some(true));
    assert_eq!(channels[1].get_category_name(), Some("Main"));
}

#[test]
fn written_channels_parse_back_in_written_order() {
    let original = vec![
        channel("member-chat", None, "ann", true),
        channel("x", Some("my cat"), "voice", false),
        channel("b-2", None, "text", false),
        channel("y", Some("other"), "text", true),
        channel("z", Some("my cat"), "ann", false),
    ];
    let text = text_from_channels(original);
    let channels = parse_to_channel(text).unwrap();
    let got: Vec<(String, ChannelKind, Option<bool>, Option<String>)> = channels
        .iter()
        .map(|c| {
            (
                c.channel.clone(),
                c.channel_type,
                c.private,
                c.get_category_name().map(|n| n.to_string()),
            )
        })
        .collect();
    assert_eq!(
        got,
        vec![
            ("member-chat".to_string(), ChannelKind::News, Some(true), None),
            ("b-2".to_string(), ChannelKind::Text, None, None),
            ("x".to_string(), ChannelKind::Voice, None, Some("my cat".to_string())),
            ("z".to_string(), ChannelKind::News, None, Some("my cat".to_string())),
            ("y".to_string(), ChannelKind::Text, Some(true), Some("other".to_string())),
        ]
    );
    for c in &channels {
        assert!(!c.get_category_private());
        assert_eq!(c.roles, None);
    }
}

#[test]
fn channel_named_like_its_kind_parses_back() {
    let text = text_from_channels(vec![channel("ann", None, "ann", false)]);
    assert_eq!(text, "-ch ann -t ann\n\n");
    let channels = parse_to_channel(text).unwrap();
    assert_eq!(channels.len(), 1);
    assert_eq!(channels[0].channel, "ann");
    assert_eq!(channels[0].channel_type, ChannelKind::News);
}

#[test]
fn roles_named_like_the_channel_are_kept() {
    let channels = parse_to_channel("-ch admin -r admin".to_string()).unwrap();
    assert_eq!(channels.len(), 1);
    assert_eq!(channels[0].channel, "admin");
    assert_eq!(channels[0].roles, Some(vec!["admin".to_string()]));
    assert!(channels[0].category.is_none());
}

#[test]
fn text_describes_channel_with_several_name_words() {
    let text = parse_to_text("-ch something 1 2 3 -p -r one, two three".to_string());
    assert_eq!(
        text,
        "These data were detected\n\nPrivate: No\nChannels:\n    something-1-2-3: Roles: one, two three Private: Yes \n\n"
    );
    let text = parse_to_text("-ch another channel".to_string());
    assert_eq!(
        text,
        "These data were detected\n\nPrivate: No\nChannels:\n    another-channel: \n\n"
    );
}


#[test]
fn no_channels_give_empty_text() {
    assert_eq!(text_from_channels(Vec::new()), "");
}

#[test]
fn channel_type_values() {
    let mut c = ChannelInfo::default();
    c.update_channel_type("voice");
    assert_eq!(c.channel_type, ChannelKind::Voice);
    c.update_channel_type("bogus");
    assert_eq!(c.channel_type, ChannelKind::Voice);
    c.update_channel_type("ann");
    assert_eq!(c.channel_type, ChannelKind::News);
    c.update_channel_type("text");
    assert_eq!(c.channel_type, ChannelKind::Text);
}

#[test]
fn category_updates() {
    let mut cat = CategoryInfo::default();
    assert_eq!(cat.category, "None");
    assert_eq!(cat.roles(), &None);
    assert!(!cat.private());
    cat.update_name("Main");
    cat.update_roles(vec!["r".to_string()]);
    cat.update_private();
    let mut c = ChannelInfo::default();
    c.update(Some(cat), "x".to_string(), names(&["q"]));
    assert_eq!(c.get_category_name(), Some("Main"));
    assert_eq!(c.get_category_roles(), &names(&["r"]));
    assert!(c.get_category_private());
    assert_eq!(c.roles, names(&["q"]));
    assert_eq!(c.channel, "x");
}

#[test]
fn line_breaks_read_as_spaces() {
    let a = parse_to_channel("-cat A -p\n-ch b -t voice\n-cat C\n-ch d".to_string()).unwrap();
    let b = parse_to_channel("-cat A -p -ch b -t voice -cat C -ch d".to_string()).unwrap();
    assert_eq!(a.len(), b.len());
    for (x, y) in a.iter().zip(b.iter()) {
        assert_eq!(x.channel, y.channel);
        assert_eq!(x.channel_type, y.channel_type);
        assert_eq!(x.private, y.private);
        assert_eq!(x.get_category_name(), y.get_category_name());
    }
}
