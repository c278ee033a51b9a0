use chord::parse::parser::{parse_input, try_parse_input, ParsedArgs};

fn roles(list: &[&str]) -> Option<Vec<String>> {
    Some(list.iter().map(|s| s.to_string()).collect())
}

fn ok(text: &str) -> ParsedArgs {
    match parse_input(text.to_string()) {
        Ok(d) => d,
        Err(_) => panic!("expected a complete parse of {text:?}"),
    }
}

#[test]
fn parses_category_flags_and_channels() {
    let d = ok("-cat my category -p -r admin, member -ch general -ch memes -t text");
    assert_eq!(d.category, Some("my category".to_string()));
    assert!(d.private);
    assert_eq!(d.roles, roles(&["admin", "member"]));
    assert_eq!(d.channels, roles(&["general", "memes -t text"]));
    assert_eq!(d.channel_type, None);
}

#[test]
fn channel_flags_are_collected_with_the_channel() {
    let d = ok("-cat main chat -ch member-chat -ch admin-chat -r admin -p -t voice");
    assert_eq!(d.category, Some("main chat".to_string()));
    assert!(!d.private);
    assert_eq!(d.roles, None);
    assert_eq!(d.channels, roles(&["member-chat", "admin-chat -r admin -p -t voice"]));
}

#[test]
fn channel_type_is_lowercased() {
    let d = ok("-t VOICE");
    assert_eq!(d.channel_type, Some("voice".to_string()));
}

#[test]
fn roles_are_split_by_comma_and_trimmed() {
    let d = ok("-r  one ,two,  three");
    assert_eq!(d.roles, roles(&["one", "two", "three"]));
}

#[test]
fn unknown_words_fail_with_partial_data() {
    match parse_input("-p nonsense".to_string()) {
        Ok(_) => panic!("should not parse"),
        Err(d) => assert!(d.private),
    }
}

#[test]
fn empty_text_is_an_error() {
    assert!(parse_input(String::new()).is_err());
}

#[test]
fn trailing_type_flag_is_reported() {
    assert!(try_parse_input(&"-p -t".to_string()).is_none());
    assert!(try_parse_input(&"-p -t ann".to_string()).is_some());
}

#[test]
fn channel_scan_stops_at_category() {
    let d = ok("-ch a -ch b -cat c");
    assert_eq!(d.channels, roles(&["a", "b"]));
    assert_eq!(d.category, Some("c".to_string()));
}
