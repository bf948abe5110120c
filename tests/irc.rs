use tcyb::irc::{
    chat_action, handshake_lines, parse_message, translation_reply, ChatAction, ChatEvent,
};

fn chat_text(event: ChatEvent) -> String {
    match event {
        ChatEvent::Chat { text, .. } => text,
        _ => panic!("not a chat line"),
    }
}

#[test]
fn parse_smile_emoji_message() {
    let message = parse_message(
        "@badge-info=;badges=broadcaster/1;client-nonce=c047bc731be346ced547db43b626c763;color=#151538;display-name=解樹形図_祈;emotes=;first-msg=0;flags=;id=370397f6-fd48-4190-bdf2-c8547a048df8;mod=0;returning-chatter=0;room-id=173660453;subscriber=0;tmi-sent-ts=1716111351803;turbo=0;user-id=173660453;user-type= :testuser!somthing@something.tmi.twitch.tv PRIVMSG #somechannel :hello :)",
    );
    assert_eq!(chat_text(message).as_str(), "hello :)");
}

#[test]
fn chat_line_without_tags() {
    match parse_message(":u!i@i.tmi.twitch.tv PRIVMSG #c :hello :)") {
        ChatEvent::Chat { user, channel, text, message_id } => {
            assert_eq!(user, "u");
            assert_eq!(channel, "c");
            assert_eq!(text, "hello :)");
            assert_eq!(message_id, None);
        }
        _ => panic!("not a chat line"),
    }
}

#[test]
fn chat_line_with_id_tag() {
    match parse_message("@badges=;id=abc123;mod=0 :u!u@u.tmi.twitch.tv PRIVMSG #c :hi") {
        ChatEvent::Chat { user, message_id, .. } => {
            assert_eq!(user, "u");
            assert_eq!(message_id, Some(String::from("abc123")));
        }
        _ => panic!("not a chat line"),
    }
}

#[test]
fn chat_line_with_tags_but_no_id() {
    match parse_message("@badges=;mod=0 :u!u@u.tmi.twitch.tv PRIVMSG #c :hi") {
        ChatEvent::Chat { message_id, .. } => assert_eq!(message_id, None),
        _ => panic!("not a chat line"),
    }
}

#[test]
fn chat_line_with_line_terminator() {
    let event = parse_message(":u!i@i.tmi.twitch.tv PRIVMSG #c :hello\r\n");
    assert_eq!(chat_text(event), "hello");
}

#[test]
fn chat_line_from_other_host_is_unrecognized() {
    let raw = ":u!i@i.example.com PRIVMSG #c :hello";
    match parse_message(raw) {
        ChatEvent::Unrecognized { raw: r } => assert_eq!(r, raw),
        _ => panic!("should not be recognized"),
    }
}

#[test]
fn login_failure_is_auth_expired() {
    let line = ":tmi.twitch.tv NOTICE * :Login authentication failed";
    assert!(matches!(parse_message(line), ChatEvent::AuthExpired));
    assert!(matches!(parse_message(":tmi.twitch.tv NOTICE * :Login authentication failed \t\r\n"), ChatEvent::AuthExpired));
    assert!(matches!(chat_action(parse_message(line), "me"), ChatAction::AuthExpired));
}

#[test]
fn ping_is_answered_once() {
    let event = parse_message("PING :tmi.twitch.tv");
    match &event {
        ChatEvent::Keepalive { host } => assert_eq!(host, "tmi.twitch.tv"),
        _ => panic!("not a keepalive"),
    }
    match chat_action(event, "me") {
        ChatAction::Reply { line } => assert_eq!(line, "PONG :tmi.twitch.tv"),
        _ => panic!("no reply"),
    }
    match chat_action(parse_message("PING :tmi.twitch.tv\r\n"), "me") {
        ChatAction::Reply { line } => assert_eq!(line, "PONG :tmi.twitch.tv"),
        _ => panic!("no reply"),
    }
}

#[test]
fn other_lines_are_unrecognized() {
    let raw = ":tmi.twitch.tv 001 me :Welcome, GLHF!";
    assert!(matches!(parse_message(raw), ChatEvent::Unrecognized { .. }));
    assert!(matches!(parse_message(""), ChatEvent::Unrecognized { .. }));
    assert!(matches!(chat_action(parse_message(raw), "me"), ChatAction::Ignore));
}

#[test]
fn own_chat_lines_are_not_relayed() {
    let line = ":me!me@me.tmi.twitch.tv PRIVMSG #c :mine";
    assert!(matches!(chat_action(parse_message(line), "me"), ChatAction::Ignore));
    match chat_action(parse_message(line), "other") {
        ChatAction::Relay { text, channel, message_id } => {
            assert_eq!(text, "mine");
            assert_eq!(channel, "c");
            assert_eq!(message_id, None);
        }
        _ => panic!("not relayed"),
    }
}

#[test]
fn handshake_sends_four_lines() {
    let lines = handshake_lines("tok", "me", "chan");
    assert_eq!(
        lines,
        vec![
            String::from("PASS oauth:tok"),
            String::from("NICK me"),
            String::from("JOIN #chan"),
            String::from("CAP REQ :twitch.tv/tags"),
        ]
    );
}

#[test]
fn translation_is_posted_as_a_reply() {
    let line = "@id=abc123 :u!u@u.tmi.twitch.tv PRIVMSG #c :konnichiwa";
    match chat_action(parse_message(line), "me") {
        ChatAction::Relay { text, channel, message_id } => {
            assert_eq!(text, "konnichiwa");
            let id = message_id.unwrap_or_default();
            assert_eq!(id, "abc123");
            assert_eq!(
                translation_reply(&id, &channel, "hello"),
                Some(String::from("@reply-parent-msg-id=abc123 PRIVMSG #c :hello"))
            );
        }
        _ => panic!("not relayed"),
    }
    assert_eq!(translation_reply("abc123", "c", ""), None);
}
