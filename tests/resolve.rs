use discord_callsign_bot::config::{
    default_emoji_separator, Config, DiscordConfig, OutputConfig, Override,
};
use discord_callsign_bot::output::OutputEntry;
use discord_callsign_bot::parser::{CallsignParser, MemberInfo};
use discord_callsign_bot::qrz::CallsignInfo;
use discord_callsign_bot::resolve::{
    apply_lookup, build_member_list, generate_member_list, resolve_entry, resolve_member, Member,
};

fn config(overrides: Vec<(String, Override)>, title: Option<&str>) -> Config {
    Config {
        discord: DiscordConfig {
            token: "SECRET-REDACTED".to_string(),
            guild_id: 1,
            bot_nickname: None,
        },
        output: OutputConfig {
            file_path: "members.txt".to_string(),
            default_suffix: "73".to_string(),
            emoji_separator: "*".to_string(),
            title: title.map(|t| t.to_string()),
        },
        overrides,
        qrz: None,
    }
}

fn member(id: &str, nickname: Option<&str>, username: &str) -> Member {
    Member {
        id: id.to_string(),
        nickname: nickname.map(|n| n.to_string()),
        global_name: None,
        username: username.to_string(),
    }
}

fn empty_override() -> Override {
    Override {
        callsign: None,
        name: None,
        suffix: None,
        emoji_separator: None,
    }
}

fn info(nickname: Option<&str>) -> CallsignInfo {
    CallsignInfo {
        fname: Some("Jonathan".to_string()),
        name: Some("Jonathan Smith".to_string()),
        nickname: nickname.map(|n| n.to_string()),
    }
}

#[test]
fn default_separator_is_radio() {
    assert_eq!(default_emoji_separator(), "\u{1F4FB}");
}

#[test]
fn get_override_by_member_id() {
    let mut o = empty_override();
    o.name = Some("Bob".to_string());
    let c = config(vec![("42".to_string(), o)], None);
    assert_eq!(c.get_override("42").unwrap().name, Some("Bob".to_string()));
    assert!(c.get_override("43").is_none());
}

#[test]
fn resolve_name_field_takes_first_parsing_candidate() {
    let parser = CallsignParser::new();
    let candidates = vec![None, Some("Jay".to_string()), Some("Jay W6JSV".to_string())];
    let (parsed, display) = parser.resolve_name_field(&candidates, "jay99");
    let parsed = parsed.unwrap();
    assert_eq!(parsed.callsign, "W6JSV");
    assert_eq!(parsed.name, "Jay");
    assert_eq!(display, "Jay W6JSV");
    let (parsed, display) = parser.resolve_name_field(&vec![Some("Jay".to_string())], "jay99");
    assert!(parsed.is_none());
    assert_eq!(display, "jay99");
}

#[test]
fn override_callsign_wins_over_parse() {
    let mut o = empty_override();
    o.callsign = Some("K1OVR".to_string());
    let parsed = Some(MemberInfo {
        callsign: "W6JSV".to_string(),
        name: "Jay".to_string(),
    });
    let e = resolve_entry(Some(&o), parsed, "Jay W6JSV", &"73".to_string(), &"*".to_string())
        .unwrap();
    assert_eq!(e.callsign, "K1OVR");
    assert_eq!(e.name, "Jay");
    assert_eq!(e.suffix, "73");
    let e = resolve_entry(Some(&o), None, "Jay", &"73".to_string(), &"*".to_string()).unwrap();
    assert_eq!(e.callsign, "K1OVR");
    assert_eq!(e.name, "Jay");
}

#[test]
fn override_without_parse_uses_unknown_and_display() {
    let o = empty_override();
    let e = resolve_entry(Some(&o), None, "Just Jay", &"73".to_string(), &"*".to_string())
        .unwrap();
    assert_eq!(e.callsign, "UNKNOWN");
    assert_eq!(e.name, "Just Jay");
    assert_eq!(e.suffix, "73");
    assert_eq!(e.emoji_separator, "*");
}

#[test]
fn override_fields_replace_defaults() {
    let o = Override {
        callsign: None,
        name: Some("Robert".to_string()),
        suffix: Some("QRP".to_string()),
        emoji_separator: Some("-".to_string()),
    };
    let parsed = Some(MemberInfo {
        callsign: "W6JSV".to_string(),
        name: "Jay".to_string(),
    });
    let e = resolve_entry(Some(&o), parsed, "x", &"73".to_string(), &"*".to_string()).unwrap();
    assert_eq!(e.callsign, "W6JSV");
    assert_eq!(e.name, "Robert");
    assert_eq!(e.suffix, "QRP");
    assert_eq!(e.emoji_separator, "-");
}

#[test]
fn no_override_and_no_parse_gives_no_entry() {
    assert!(resolve_entry(None, None, "Jay", &"73".to_string(), &"*".to_string()).is_none());
}

#[test]
fn failed_lookup_keeps_name() {
    let e = OutputEntry {
        callsign: "W6JSV".to_string(),
        name: "Jay".to_string(),
        suffix: "73".to_string(),
        emoji_separator: "*".to_string(),
    };
    let kept = apply_lookup(e, &None);
    assert_eq!(kept.name, "Jay");
    let e = OutputEntry {
        callsign: "W6JSV".to_string(),
        name: "Jay".to_string(),
        suffix: "73".to_string(),
        emoji_separator: "*".to_string(),
    };
    let found = apply_lookup(e, &Some(info(Some("Jo"))));
    assert_eq!(found.name, "Jo");
    assert_eq!(found.callsign, "W6JSV");
}

#[test]
fn resolve_member_asks_directory_only_without_override_name() {
    let parser = CallsignParser::new();
    let c = config(Vec::new(), None);
    let (e, lookup) = resolve_member(&c, &parser, &member("1", Some("Jay W6JSV"), "jay"));
    assert_eq!(e.unwrap().name, "Jay");
    assert_eq!(lookup, Some("W6JSV".to_string()));

    let mut o = empty_override();
    o.name = Some("Jay J".to_string());
    let c = config(vec![("1".to_string(), o)], None);
    let (e, lookup) = resolve_member(&c, &parser, &member("1", Some("Jay W6JSV"), "jay"));
    assert_eq!(e.unwrap().name, "Jay J");
    assert_eq!(lookup, None);

    let (e, lookup) = resolve_member(&c, &parser, &member("2", Some("Jay"), "jay"));
    assert!(e.is_none());
    assert_eq!(lookup, None);
}

#[test]
fn build_member_list_dedupes_and_renders() {
    let entries = vec![
        OutputEntry {
            callsign: "W6JSV".to_string(),
            name: "Jay".to_string(),
            suffix: "".to_string(),
            emoji_separator: "*".to_string(),
        },
        OutputEntry {
            callsign: "W6JSV".to_string(),
            name: "Other".to_string(),
            suffix: "".to_string(),
            emoji_separator: "*".to_string(),
        },
    ];
    let (text, dropped) = build_member_list(entries, Some("Roster"));
    assert_eq!(text, "# TITLE: Roster\nW6JSV * Jay \n");
    assert_eq!(dropped, 1);
}

fn snapshot() -> Vec<Member> {
    vec![
        member("1", Some("Forrest KI7QCF"), "forrest"),
        member("99", Some("Bot AA0BOT"), "bot"),
        member("2", None, "W6JSV"),
        member("3", Some("No Call"), "nocall"),
        member("4", Some("Jay - W6JSV"), "jay2"),
        member("5", Some("AA1AA"), "al"),
    ]
}

#[test]
fn generate_member_list_from_snapshot() {
    let parser = CallsignParser::new();
    let c = config(Vec::new(), Some("Roster"));
    let found = vec![Some(info(Some("Woody"))), None, None, None, None, Some(info(None))];
    let (text, dropped) = generate_member_list(&c, &parser, &snapshot(), "99", &found);
    assert_eq!(
        text,
        "# TITLE: Roster\nAA1AA * Jonathan 73\nKI7QCF * Woody 73\nW6JSV * W6JSV 73\n"
    );
    assert_eq!(dropped, 1);
}

#[test]
fn generate_member_list_is_idempotent() {
    let parser = CallsignParser::new();
    let c = config(Vec::new(), None);
    let found = vec![None, None, None, None, None, None];
    let first = generate_member_list(&c, &parser, &snapshot(), "99", &found);
    let second = generate_member_list(&c, &parser, &snapshot(), "99", &found);
    assert_eq!(first, second);
}
