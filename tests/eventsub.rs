use tcyb::eventsub::{
    FollowEvent, NotificationAction, NotificationClient, NotificationEnvelope, NotificationFrame,
    Session,
};

fn message(kind: &str, subscription: Option<&str>, session: Option<Session>, user: Option<&str>) -> NotificationFrame {
    NotificationFrame::Message {
        envelope: NotificationEnvelope {
            message_type: String::from(kind),
            subscription_type: subscription.map(String::from),
            session,
            event: user.map(|u| FollowEvent { user_name: String::from(u) }),
        },
    }
}

fn welcome(id: &str) -> NotificationFrame {
    message("session_welcome", None, Some(Session { id: String::from(id), reconnect_url: None }), None)
}

const TEMPLATE: &str = "user_name is now following!";

#[test]
fn welcome_registers_once_per_connection() {
    let mut client = NotificationClient::new();
    match client.on_frame(welcome("s1"), TEMPLATE) {
        NotificationAction::Subscribe { session_id } => assert_eq!(session_id, "s1"),
        _ => panic!("no registration"),
    }
    assert!(client.subscribed);
    assert!(matches!(client.on_frame(welcome("s1"), TEMPLATE), NotificationAction::Ignore));
    let mut fresh = NotificationClient::new();
    assert!(matches!(fresh.on_frame(welcome("s2"), TEMPLATE), NotificationAction::Subscribe { .. }));
}

#[test]
fn reconnect_names_the_new_url() {
    let mut client = NotificationClient::new();
    let frame = message(
        "session_reconnect",
        None,
        Some(Session { id: String::from("s1"), reconnect_url: Some(String::from("wss://next/ws")) }),
        None,
    );
    match client.on_frame(frame, TEMPLATE) {
        NotificationAction::Reconnect { url } => assert_eq!(url, "wss://next/ws"),
        _ => panic!("no reconnect"),
    }
}

#[test]
fn follower_is_greeted() {
    let mut client = NotificationClient::new();
    match client.on_frame(message("notification", Some("channel.follow"), None, Some("alice")), TEMPLATE) {
        NotificationAction::Relay { text } => assert_eq!(text, "alice is now following!"),
        _ => panic!("no greeting"),
    }
    match client.on_frame(message("notification", Some("channel.follow"), None, None), "hi user_name, user_name!") {
        NotificationAction::Relay { text } => assert_eq!(text, "hi Unknown user, Unknown user!"),
        _ => panic!("no greeting"),
    }
}

#[test]
fn other_messages_are_ignored() {
    let mut client = NotificationClient::new();
    assert!(matches!(client.on_frame(message("notification", Some("channel.subscribe"), None, Some("a")), TEMPLATE), NotificationAction::Ignore));
    assert!(matches!(client.on_frame(message("notification", None, None, Some("a")), TEMPLATE), NotificationAction::Ignore));
    assert!(matches!(client.on_frame(message("session_keepalive", None, None, None), TEMPLATE), NotificationAction::Ignore));
    assert!(matches!(client.on_frame(NotificationFrame::Other, TEMPLATE), NotificationAction::Ignore));
    assert!(!client.subscribed);
}

#[test]
fn ping_is_echoed() {
    let mut client = NotificationClient::new();
    match client.on_frame(NotificationFrame::Ping { payload: vec![1, 2, 3] }, TEMPLATE) {
        NotificationAction::Pong { payload } => assert_eq!(payload, vec![1, 2, 3]),
        _ => panic!("no pong"),
    }
}

#[test]
fn undecodable_message_is_a_connection_error() {
    let mut client = NotificationClient::new();
    assert!(matches!(client.on_frame(NotificationFrame::Undecodable, TEMPLATE), NotificationAction::ConnectionError));
}
