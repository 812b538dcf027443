use twitch_chat::client::{decode_frame, join_command, keepalive_reply, login_commands};
use twitch_chat::color::ColorTable;
use twitch_chat::message::{IrcCommand, IrcMessage};

#[test]
fn banner_lines_are_withheld() {
    let frame = ":tmi.twitch.tv 001 <user> :Welcome, GLHF!\r\n:tmi.twitch.tv 002 <user> :Your host is tmi.twitch.tv\r\n:tmi.twitch.tv 003 <user> :This server is rather new\r\n:tmi.twitch.tv 004 <user> :-\r\n:tmi.twitch.tv 375 <user> :-\r\n:tmi.twitch.tv 372 <user> :You are in a maze of twisty passages, all alike.\r\n:tmi.twitch.tv 376 <user> :>\r\n@badge-info=;badges=;color=;display-name=<user>;emote-sets=0,300374282;user-id=12345678;user-type= :tmi.twitch.tv GLOBALUSERSTATE\r\n";
    let mut colors = ColorTable::new();
    let ms = decode_frame(frame, &mut colors);
    assert_eq!(ms.len(), 1);
    assert_eq!(ms[0].command, IrcCommand::Unknown);
    assert_eq!(ms[0].source, "tmi.twitch.tv");
    assert_eq!(ms[0].source_name, "<user>");
    assert!(ms[0].channels.is_empty());
    assert_eq!(ms[0].text, "");
    assert_eq!(ms[0].tags.user_id, 12345678);
    assert_eq!(colors.get(&"<user>".to_string()), Some(ms[0].source_color));
}

#[test]
fn frame_keeps_order_and_drops_bad_lines() {
    let frame = "PING :a\n@broken\n:x!x@x PRIVMSG #c :one\r\n:tmi.twitch.tv 353 me = #c :x\n:y!y@y PRIVMSG #c :two";
    let mut colors = ColorTable::new();
    let ms = decode_frame(frame, &mut colors);
    assert_eq!(ms.len(), 3);
    assert_eq!(ms[0].command, IrcCommand::Ping);
    assert_eq!(ms[1].text, "one");
    assert_eq!(ms[2].text, "two");
    assert_eq!(ms[1].source_name, "x");
    assert!(decode_frame("", &mut colors).is_empty());
}

#[test]
fn ping_gets_pong() {
    let mut colors = ColorTable::new();
    let m = IrcMessage::from_str("PING :tmi.twitch.tv", &mut colors).unwrap();
    assert_eq!(keepalive_reply(&m), Some("PONG :tmi.twitch.tv".to_string()));
    let m = IrcMessage::from_str(":a!a@a PRIVMSG #c :PING", &mut colors).unwrap();
    assert_eq!(keepalive_reply(&m), None);
}

#[test]
fn login_and_join_lines() {
    assert_eq!(
        login_commands("justinfan69", "password"),
        vec![
            "CAP REQ :twitch.tv/tags".to_string(),
            "PASS password".to_string(),
            "NICK justinfan69".to_string()
        ]
    );
    assert_eq!(join_command("ronni"), "JOIN #ronni");
}
