use tcyb::api::{
    blocked_bots, chatter_logins, cover_offset, first_game_id, first_user_id, join_logins, Chatter, Chatters,
    SearchGame, User, UserData,
};
use tcyb::settings::Settings;
use tcyb::sound::{convert_format, is_supported_format, WAV_FORMAT_IEEE_FLOAT, WAV_FORMAT_PCM};

fn chatter(login: &str) -> Chatter {
    Chatter { user_id: String::from("1"), user_login: String::from(login), user_name: String::from(login) }
}

#[test]
fn first_user_is_taken() {
    let user = User { data: vec![UserData { id: String::from("42") }, UserData { id: String::from("7") }] };
    assert_eq!(first_user_id(&user), Some(String::from("42")));
    assert_eq!(first_user_id(&User { data: vec![] }), None);
}

#[test]
fn chatters_are_listed_sorted_without_channel_and_user() {
    let chatters = Chatters {
        data: vec![chatter("zed"), chatter("chan"), chatter("amy"), chatter("me"), chatter("bob"), chatter("amy")],
    };
    let logins = chatter_logins(&chatters, "chan", "me");
    assert_eq!(logins, vec!["amy", "amy", "bob", "zed"]);
    assert_eq!(join_logins(&logins), "amy,amy,bob,zed");
    assert_eq!(join_logins(&vec![]), "");
    let unicode = Chatters { data: vec![chatter("é"), chatter("z"), chatter("Z")] };
    assert_eq!(chatter_logins(&unicode, "c", "m"), vec!["Z", "z", "é"]);
}

#[test]
fn games_and_covers() {
    let games = vec![SearchGame { id: 11, cover: 5, name: String::from("g") }];
    assert_eq!(first_game_id(&games), Some(11));
    assert_eq!(first_game_id(&vec![]), None);
    assert_eq!(cover_offset(1252, 3, 0), 0);
    assert_eq!(cover_offset(1252, 3, 2), 834);
}

#[test]
fn sample_formats() {
    assert_eq!(convert_format(WAV_FORMAT_PCM, 8), 2);
    assert_eq!(convert_format(WAV_FORMAT_PCM, 16), 4);
    assert_eq!(convert_format(WAV_FORMAT_PCM, 24), 8);
    assert_eq!(convert_format(WAV_FORMAT_PCM, 32), 0);
    assert_eq!(convert_format(WAV_FORMAT_IEEE_FLOAT, 32), 16);
    assert_eq!(convert_format(WAV_FORMAT_IEEE_FLOAT, 64), 0);
    assert_eq!(convert_format(2, 16), 0);
    assert!(is_supported_format(1) && is_supported_format(3) && !is_supported_format(2));
}

#[test]
fn settings_routes_are_checked_once() {
    let mut settings = Settings {
        client_id: String::new(),
        client_secret: String::new(),
        channel: String::from("c"),
        username: String::from("me"),
        speech_address: String::from("http://localhost:8080"),
        operations: vec![String::from("o:/tts"), String::from("o:/sub")],
        listen_address: String::from("localhost:8000"),
        greeting_template: String::from("user_name is now following!"),
        db_dir: String::from("."),
        db_name: String::from("db"),
        translate_command: String::new(),
    };
    assert_eq!(settings.routes().unwrap().len(), 2);
    settings.operations.push(String::from("o:/unknown"));
    assert!(settings.routes().is_err());
}

#[test]
fn allowlisted_bots_are_not_blocked() {
    let bots = vec![String::from("a"), String::from("b"), String::from("c"), String::from("b")];
    let allow = vec![String::from("b"), String::from("x")];
    assert_eq!(blocked_bots(&bots, &allow), vec!["a", "c"]);
    assert_eq!(blocked_bots(&bots, &vec![]), bots);
    assert!(blocked_bots(&vec![], &allow).is_empty());
}
