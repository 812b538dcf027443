use twitch_chat::emote::{decimal_chars, Emote, EmoteServer};
use twitch_chat::message::{parse_command, IrcCommand};

#[test]
fn emote_labels() {
    let e = Emote { server: EmoteServer::Twitch, id: 25 };
    assert_eq!(e.label(), "Twitch:25");
    let e = Emote { server: EmoteServer::SevenTv, id: 0 };
    assert_eq!(e.label(), "SevenTv:0");
    let e = Emote { server: EmoteServer::Bttv, id: u32::MAX };
    assert_eq!(e.label(), "Bttv:4294967295");
    assert_eq!(EmoteServer::FrankerFaceZ.name(), "FrankerFaceZ");
}

#[test]
fn decimal_digits() {
    assert_eq!(decimal_chars(1902).into_iter().collect::<String>(), "1902");
    assert_eq!(decimal_chars(10).into_iter().collect::<String>(), "10");
    assert_eq!(decimal_chars(7).into_iter().collect::<String>(), "7");
}

#[test]
fn command_tokens() {
    let raw: Vec<char> = "  PRIVMSG   #a\t#b ".chars().collect();
    let (command, channels) = parse_command(&raw);
    assert_eq!(command, IrcCommand::PrivMsg);
    assert_eq!(channels, vec!["#a".to_string(), "#b".to_string()]);
    let (command, channels) = parse_command(&Vec::new());
    assert_eq!(command, IrcCommand::Unknown);
    assert!(channels.is_empty());
}
