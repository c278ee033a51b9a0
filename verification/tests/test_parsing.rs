use chord::parse::parser::ParsedArgs;
use chord::parser::parse_input;
use std::collections::HashMap;

/// The collected data as the key-value map that the command handlers read.
fn as_map(data: &ParsedArgs) -> HashMap<&'static str, Vec<String>> {
    let mut map = HashMap::new();
    if let Some(category) = &data.category {
        map.insert("category", vec![category.clone()]);
    }
    if data.private {
        map.insert("private", vec!["true".to_string()]);
    }
    if let Some(roles) = &data.roles {
        map.insert("roles", roles.clone());
    }
    if let Some(channels) = &data.channels {
        map.insert("channels", channels.clone());
    }
    if let Some(channel_type) = &data.channel_type {
        map.insert("channel_type", vec![channel_type.clone()]);
    }
    map
}

#[test]
fn test_parse_1() {
    let data = "-cat category name -p -r admin, team member -ch channel-1 -r another role, third role | channel-2 | channel-3".to_string();

    let expected_data = HashMap::from([
        ("category", vec!["category name".to_string()]),
        ("private", vec!["true".to_string()]),
        (
            "roles",
            vec!["admin".to_string(), "team member".to_string()],
        ),
        (
            "channels",
            vec![
                "channel-1 -r another role, third role".to_string(),
                "channel-2".to_string(),
                "channel-3".to_string(),
            ],
        ),
    ]);
    let parsed_data = as_map(&parse_input(data).unwrap());

    assert_eq!(expected_data, parsed_data);

    for mut data in parsed_data["channels"].to_owned() {
        let split: Vec<&str> = data.split(' ').collect();
        let channel_name = split[0];
        data = data.replace(&format!("{channel_name} "), "");

        let parsed_data = as_map(&parse_input(format!("{data}")).unwrap());

        let expected_data = HashMap::from([(
            "roles",
            vec!["another role".to_string(), "third role".to_string()],
        )]);
        assert_eq!(parsed_data, expected_data);
        break;
    }
}

#[test]
fn test_parse_2() {
    let data = "-cat my category".to_string();
    let parsed_data = parse_input(data);

    let expected_data = HashMap::from([("category", vec!["my category".to_string()])]);

    assert_eq!(expected_data, as_map(&parsed_data.unwrap()));

    let data = "-p".to_string();
    let parsed_data = parse_input(data);

    let expected_data = HashMap::from([("private", vec!["true".to_string()])]);

    assert_eq!(expected_data, as_map(&parsed_data.unwrap()));

    let data = "-r my admin, admin".to_string();
    let parsed_data = parse_input(data);

    let expected_data =
        HashMap::from([("roles", vec!["my admin".to_string(), "admin".to_string()])]);

    assert_eq!(expected_data, as_map(&parsed_data.unwrap()));

    let data = "-ch my-channel | channel-2".to_string();
    let parsed_data = parse_input(data);

    let expected_data = HashMap::from([(
        "channels",
        vec!["my-channel".to_string(), "channel-2".to_string()],
    )]);

    assert_eq!(expected_data, as_map(&parsed_data.unwrap()));
}

#[test]
fn legacy_parse_gives_up_after_99_steps() {
    let parsed = parse_input("hello world".to_string());
    assert_eq!(parsed.err(), Some("Parse didn't complete properly within 99 loops"));
}

#[test]
fn legacy_parse_empty_text_is_ok() {
    let parsed = parse_input(String::new()).unwrap();
    assert!(as_map(&parsed).is_empty());
}

#[test]
fn legacy_parse_drops_flagged_channel_piece() {
    // the piece `-p x` starts with a flag and is left out of the channels,
    // but stays in the text, which then cannot be used up
    let parsed = parse_input("-ch a | -p x".to_string());
    assert!(parsed.is_err());
    let parsed = parse_input("-ch a | b -p".to_string()).unwrap();
    assert_eq!(parsed.channels, Some(vec!["a".to_string(), "b -p".to_string()]));
}

#[test]
fn first_parser_gives_channel_records() {
    let channels = chord::parser::channel_list::parse_input("-cat my cat -p -r a, b -ch one two".to_string());
    assert_eq!(channels.len(), 2);
    assert_eq!(
        format!("{:?}", channels[0]),
        "ChannelInfo { category: CategoryInfo { category: \"my cat\", roles: [\"a\", \"b\"], private: true }, channel: \"one\", roles: None, private: None }"
    );
    assert!(format!("{:?}", channels[1]).contains("channel: \"two\""));
}

#[test]
fn first_parser_without_flags_before_channels() {
    let channels = chord::parser::channel_list::parse_input("-ch x".to_string());
    assert_eq!(channels.len(), 1);
    assert!(format!("{:?}", channels[0]).contains("category: \"None\""));
}
