use twitch_chat::color::ColorTable;
use twitch_chat::emote::EmoteServer;
use twitch_chat::message::{IrcCommand, IrcMessage, IrcTags, ParseError};

fn decode(line: &str) -> Result<IrcMessage, ParseError> {
    let mut colors = ColorTable::new();
    IrcMessage::from_str(line, &mut colors)
}

fn assert_default_tags(t: &IrcTags) {
    assert!(!t.is_mod && !t.is_subscriber && !t.is_turbo && !t.is_vip);
    assert!(!t.is_first_message && !t.is_returning_chatter && !t.is_highlighted);
    assert_eq!(t.color, None);
    assert_eq!(t.display_name, None);
    assert_eq!(t.user_id, 0);
    assert!(t.emotes.is_empty());
}

#[test]
fn test_message_parser() {
    let cases = [
        "@badge-info=;badges=turbo/1;color=#0D4200;display-name=ronni;emotes=25:0-4,12-16/1902:6-10;id=b34ccfc7-4977-403a-8a94-33c6bac34fb8;mod=0;room-id=1337;subscriber=0;tmi-sent-ts=1507246572675;turbo=1;user-id=1337;user-type=global_mod :ronni!ronni@ronni.tmi.twitch.tv PRIVMSG #ronni :Kappa Keepo Kappa",
        "@badge-info=;badges=staff/1,bits/1000;bits=100;color=;display-name=ronni;emotes=;id=b34ccfc7-4977-403a-8a94-33c6bac34fb8;mod=0;room-id=12345678;subscriber=0;tmi-sent-ts=1507246572675;turbo=1;user-id=12345678;user-type=staff :ronni!ronni@ronni.tmi.twitch.tv PRIVMSG #ronni :cheer100",
        "@badge-info=;badges=vip/1,partner/1;client-nonce=cd15335a5e2059c3b087e22612de485e;color=;display-name=fun2bfun;emotes=;first-msg=0;flags=;id=1fd20412-965f-4c96-beb3-52266448f564;mod=0;returning-chatter=0;room-id=102336968;subscriber=0;tmi-sent-ts=1661372052425;turbo=0;user-id=12345678;user-type=;vip=1 :ronni!ronni@ronni.tmi.twitch.tv PRIVMSG #ronni :Kappa Keepo Kappa",
        "@badge-info=;badges=moderator/1;color=#FF4500;display-name=mybot;emote-sets=0,300374282;mod=1;subscriber=0;user-type=mod :tmi.twitch.tv USERSTATE #bar",
        ":tmi.twitch.tv 001 <user> :Welcome, GLHF!\r\n:tmi.twitch.tv 002 <user> :Your host is tmi.twitch.tv\r\n:tmi.twitch.tv 003 <user> :This server is rather new\r\n:tmi.twitch.tv 004 <user> :-\r\n:tmi.twitch.tv 375 <user> :-\r\n:tmi.twitch.tv 372 <user> :You are in a maze of twisty passages, all alike.\r\n:tmi.twitch.tv 376 <user> :>\r\n@badge-info=;badges=;color=;display-name=<user>;emote-sets=0,300374282;user-id=12345678;user-type= :tmi.twitch.tv GLOBALUSERSTATE\r\n",
        "PING :tmi.twitch.tv",
    ];

    let mut colors = ColorTable::new();
    for case in cases {
        for line in case.lines() {
            let _ = IrcMessage::from_str(line, &mut colors);
        }
    }
}

#[test]
fn privmsg_with_tags_decodes() {
    let line = "@badge-info=;badges=turbo/1;color=#0D4200;display-name=ronni;emotes=25:0-4,12-16/1902:6-10;id=b34ccfc7-4977-403a-8a94-33c6bac34fb8;mod=0;subscriber=0;turbo=1;user-id=1337 :ronni!ronni@ronni.tmi.twitch.tv PRIVMSG #ronni :Kappa Keepo Kappa";
    let m = decode(line).unwrap();
    assert_eq!(m.command, IrcCommand::PrivMsg);
    assert_eq!(m.channels, vec!["#ronni".to_string()]);
    assert_eq!(m.text, "Kappa Keepo Kappa");
    assert_eq!(m.source, "ronni!ronni@ronni.tmi.twitch.tv");
    assert_eq!(m.source_name, "ronni");
    assert_eq!(m.raw, line);
    assert_eq!(m.tags.color, Some(0x0D4200));
    assert_eq!(m.tags.display_name, Some("ronni".to_string()));
    assert!(m.tags.is_turbo);
    assert!(!m.tags.is_mod);
    assert!(!m.tags.is_subscriber);
    assert_eq!(m.tags.user_id, 1337);
    assert_eq!(m.tags.emotes.len(), 2);
    assert_eq!(m.tags.emotes[0].emote.id, 25);
    assert_eq!(m.tags.emotes[0].emote.server, EmoteServer::Twitch);
    assert_eq!(m.tags.emotes[0].ranges, vec![(0, 4), (12, 16)]);
    assert_eq!(m.tags.emotes[1].emote.id, 1902);
    assert_eq!(m.tags.emotes[1].ranges, vec![(6, 10)]);
}

#[test]
fn ping_decodes() {
    let m = decode("PING :tmi.twitch.tv").unwrap();
    assert_eq!(m.command, IrcCommand::Ping);
    assert_eq!(m.text, "tmi.twitch.tv");
    assert_eq!(m.source, "");
    assert!(m.channels.is_empty());
    assert_eq!(m.source_name, "");
}

#[test]
fn untagged_line_has_default_tags() {
    let m = decode(":tmi.twitch.tv 001 someone :Welcome, GLHF!").unwrap();
    assert_default_tags(&m.tags);
    assert_eq!(m.command, IrcCommand::Welcome);
    assert_eq!(m.channels, vec!["someone".to_string()]);
    assert_eq!(m.text, "Welcome, GLHF!");
    assert_eq!(m.source_name, "tmi.twitch.tv");
}

#[test]
fn first_msg_flag() {
    let on = decode("@first-msg=1;mod=0 :a!a@a PRIVMSG #c :hi").unwrap();
    assert!(on.tags.is_first_message);
    let off = decode("@first-msg=0;mod=0 :a!a@a PRIVMSG #c :hi").unwrap();
    assert!(!off.tags.is_first_message);
    let absent = decode("@mod=1 :a!a@a PRIVMSG #c :hi").unwrap();
    assert!(!absent.tags.is_first_message);
    assert!(absent.tags.is_mod);
}

#[test]
fn single_emote_range() {
    let m = decode("@emotes=354:7-11 :a!a@a PRIVMSG #c :hello Kappa").unwrap();
    assert_eq!(m.tags.emotes.len(), 1);
    assert_eq!(m.tags.emotes[0].emote.server, EmoteServer::Twitch);
    assert_eq!(m.tags.emotes[0].emote.id, 354);
    assert_eq!(m.tags.emotes[0].ranges, vec![(7, 11)]);
}

#[test]
fn malformed_emote_range_drops_tags() {
    let m = decode("@display-name=Bob;emotes=25:0-;turbo=1 :bob!bob@bob PRIVMSG #c :Kappa").unwrap();
    assert_default_tags(&m.tags);
    assert_eq!(m.command, IrcCommand::PrivMsg);
    assert_eq!(m.text, "Kappa");
    assert_eq!(m.source_name, "bob");
}

#[test]
fn emote_without_colon_drops_tags() {
    let m = decode("@turbo=1;emotes=25 :bob!bob@bob PRIVMSG #c :Kappa").unwrap();
    assert_default_tags(&m.tags);
}

#[test]
fn emote_with_bad_id_is_skipped() {
    let m = decode("@emotes=x:0-4/7:1-2 :bob!bob@bob PRIVMSG #c :Kappa").unwrap();
    assert_eq!(m.tags.emotes.len(), 1);
    assert_eq!(m.tags.emotes[0].emote.id, 7);
    assert_eq!(m.tags.emotes[0].ranges, vec![(1, 2)]);
}

#[test]
fn missing_tag_terminator() {
    assert_eq!(decode("@color=#FFFFFF").err(), Some(ParseError::MissingTagTerminator));
}

#[test]
fn missing_source_terminator() {
    assert_eq!(decode(":tmi.twitch.tv").err(), Some(ParseError::MissingSourceTerminator));
    assert_eq!(
        decode("@mod=1 :tmi.twitch.tv").err(),
        Some(ParseError::MissingSourceTerminator)
    );
}

#[test]
fn tag_values() {
    let m = decode("@color=#zz;user-id=abc;vip=1;subscriber=1;msg-id=1;returning-chatter=1 :x PRIVMSG #c :t").unwrap();
    assert_eq!(m.tags.color, None);
    assert_eq!(m.tags.user_id, 0);
    assert!(m.tags.is_vip && m.tags.is_subscriber && m.tags.is_highlighted && m.tags.is_returning_chatter);
    let m = decode("@color=#1E90FF;user-id=+42;noequals;unknown-key=5 :x PRIVMSG #c :t").unwrap();
    assert_eq!(m.tags.color, Some(0x1E90FF));
    assert_eq!(m.tags.user_id, 42);
    let m = decode("@color=#ff;user-id=4294967296 :x PRIVMSG #c :t").unwrap();
    assert_eq!(m.tags.color, Some(0xff));
    assert_eq!(m.tags.user_id, 0);
    let m = decode("@color=123456 :x PRIVMSG #c :t").unwrap();
    assert_eq!(m.tags.color, None);
}

#[test]
fn source_name_fallbacks() {
    let m = decode(":::server.example JOIN #chan").unwrap();
    assert_eq!(m.source, "server.example");
    assert_eq!(m.source_name, "server.example");
    assert_eq!(m.command, IrcCommand::Join);
    assert_eq!(m.channels, vec!["#chan".to_string()]);
    assert_eq!(m.text, "");
    let m = decode("@display-name=Shown :nick!nick@host PRIVMSG #c :x").unwrap();
    assert_eq!(m.source_name, "Shown");
}

#[test]
fn text_keeps_spaces_and_colons() {
    let m = decode(":a!a@a PRIVMSG #c : hello: world ").unwrap();
    assert_eq!(m.text, " hello: world ");
}

#[test]
fn empty_and_unknown_commands() {
    let m = decode("").unwrap();
    assert_eq!(m.command, IrcCommand::Unknown);
    assert!(m.channels.is_empty());
    let m = decode(":tmi.twitch.tv USERSTATE #bar #baz").unwrap();
    assert_eq!(m.command, IrcCommand::Unknown);
    assert_eq!(m.channels, vec!["#bar".to_string(), "#baz".to_string()]);
}

#[test]
fn command_classification() {
    assert_eq!(IrcCommand::from_str("PRIVMSG"), IrcCommand::PrivMsg);
    assert_eq!(IrcCommand::from_str("353"), IrcCommand::NameReply);
    assert!(IrcCommand::from_str("353").is_numeric());
    assert!(IrcCommand::from_str("366").is_numeric());
    for code in ["001", "002", "003", "004", "372", "375", "376"] {
        assert!(IrcCommand::from_str(code).is_numeric());
    }
    assert_eq!(IrcCommand::from_str("PING"), IrcCommand::Ping);
    assert_eq!(IrcCommand::from_str("CAP"), IrcCommand::Cap);
    assert_eq!(IrcCommand::from_str("JOIN"), IrcCommand::Join);
    assert_eq!(IrcCommand::from_str("privmsg"), IrcCommand::Unknown);
    assert!(!IrcCommand::from_str("PRIVMSG").is_numeric());
    assert_eq!(IrcCommand::PrivMsg.name(), "PrivMsg");
}

#[test]
fn default_tags_are_empty() {
    assert_default_tags(&IrcTags::new());
}
