use tcyb::operation::{
    convert_operations, convert_to_operation, operation_from_name, Operation, VstcError,
};

#[test]
fn convert_without_host() {
    let result = convert_to_operation("o:/transl?t=en&s=ja").unwrap();
    assert_eq!(result.query("s").unwrap(), "ja");
    assert_eq!(result.query("t").unwrap(), "en");
}

#[test]
fn convert_with_host() {
    let result = convert_to_operation("o://localhost:8080/transl?t=en&s=ja").unwrap();
    let remote = result.remote.clone();
    assert_eq!(remote, "//localhost:8080");
    assert_eq!(result.query("s").unwrap(), "ja");
    assert_eq!(result.query("t").unwrap(), "en");

    let result = convert_to_operation("https://localhost/transl?t=en&s=ja").unwrap();
    let remote = result.remote.clone();
    assert_eq!(remote, "//localhost:443");
    assert_eq!(result.query("s").unwrap(), "ja");
    assert_eq!(result.query("t").unwrap(), "en");
}

#[test]
fn routes_name_their_operation() {
    let route = convert_to_operation("o:/transl?t=en&s=ja").unwrap();
    assert_eq!(route.operation, Operation::Translate);
    assert_eq!(route.remote, "");
    assert_eq!(route.queries.len(), 2);
    let route = convert_to_operation("o://localhost:8080/transl?t=en&s=ja").unwrap();
    assert_eq!(route.operation, Operation::Translate);
    assert_eq!(route.queries.len(), 2);
}

#[test]
fn later_query_value_wins() {
    let route = convert_to_operation("o:/tts?v=1&v=2&w=3").unwrap();
    assert_eq!(route.queries.len(), 2);
    assert_eq!(route.query("v").unwrap(), "2");
    assert_eq!(route.query("w").unwrap(), "3");
    assert_eq!(route.query("x"), None);
}

#[test]
fn every_alias_is_known() {
    let names = [
        ("transl", Operation::Translate),
        ("translate", Operation::Translate),
        ("tts", Operation::Tts),
        ("play", Operation::Playback),
        ("playback", Operation::Playback),
        ("sub", Operation::Subtitle),
        ("subtitle", Operation::Subtitle),
        ("vc", Operation::VoiceChange),
        ("reload", Operation::Reload),
        ("pause", Operation::Pause),
        ("resume", Operation::Resume),
        ("forward", Operation::Forward),
        ("fwd", Operation::Forward),
    ];
    for (name, op) in names {
        assert_eq!(operation_from_name(name), Some(op));
    }
    assert_eq!(operation_from_name("speak"), None);
    assert_eq!(operation_from_name(""), None);
}

#[test]
fn unknown_operation_is_refused() {
    match convert_to_operation("o:/speak") {
        Err(VstcError::OpConvertError { op_str }) => assert_eq!(op_str, "o:/speak"),
        _ => panic!("should be refused"),
    }
}

#[test]
fn relative_url_is_refused() {
    assert!(matches!(convert_to_operation("/tts"), Err(VstcError::UrlError(_))));
}

#[test]
fn operation_list_is_checked_whole() {
    let ops = vec![String::from("o:/tts"), String::from("o://h:9/sub")];
    let routes = convert_operations(&ops).unwrap();
    assert_eq!(routes.len(), 2);
    assert_eq!(routes[0].operation, Operation::Tts);
    assert_eq!(routes[1].operation, Operation::Subtitle);
    assert_eq!(routes[1].remote, "//h:9");
    let ops = vec![String::from("o:/tts"), String::from("o:/nope"), String::from("/x")];
    match convert_operations(&ops) {
        Err(VstcError::OpConvertError { op_str }) => assert_eq!(op_str, "o:/nope"),
        _ => panic!("should be refused"),
    }
}
