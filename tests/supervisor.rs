use tcyb::supervisor::{
    Client, ClientOutcome, DBStore, Decision, Finished, RefreshDecision, Supervisor,
    REFRESH_DELAY_SECS,
};

fn supervisor() -> Supervisor {
    Supervisor::new(
        DBStore {
            access_token: String::from("a1"),
            refresh_token: String::from("r1"),
            user_id: String::from("u"),
        },
        String::from("wss://eventsub/ws"),
    )
}

#[test]
fn first_start_uses_the_snapshot() {
    let s = supervisor();
    let start = s.start();
    assert_eq!(start.access_token, "a1");
    assert_eq!(start.notification_url, "wss://eventsub/ws");
}

#[test]
fn expired_token_cancels_then_refreshes_until_success() {
    let mut s = supervisor();
    match s.on_finished(Finished::Chat { outcome: ClientOutcome::AuthExpired }) {
        Decision::Refresh { cancel, refresh_token } => {
            assert_eq!(cancel, Client::Notification);
            assert_eq!(refresh_token, "r1");
        }
        _ => panic!("no refresh"),
    }
    assert!(s.refreshing);
    for _ in 0..3 {
        match s.on_refreshed(None) {
            RefreshDecision::RetryAfter { seconds } => assert_eq!(seconds, 30),
            _ => panic!("no retry"),
        }
        assert_eq!(s.credentials.access_token, "a1");
    }
    assert_eq!(REFRESH_DELAY_SECS, 30);
    match s.on_refreshed(Some((String::from("a2"), String::from("r2")))) {
        RefreshDecision::Start { start } => {
            assert_eq!(start.access_token, "a2");
            assert_eq!(start.notification_url, "wss://eventsub/ws");
        }
        _ => panic!("no start"),
    }
    assert!(!s.refreshing);
    assert_eq!(s.credentials.access_token, "a2");
    assert_eq!(s.credentials.refresh_token, "r2");
    assert_eq!(s.credentials.user_id, "u");
    match s.on_finished(Finished::Notification { outcome: ClientOutcome::Closed }) {
        Decision::Restart { start, .. } => assert_eq!(start.access_token, "a2"),
        _ => panic!("no restart"),
    }
}

#[test]
fn connection_error_restarts_on_the_same_token() {
    let mut s = supervisor();
    match s.on_finished(Finished::Chat { outcome: ClientOutcome::ConnectionError }) {
        Decision::Restart { cancel, start } => {
            assert_eq!(cancel, Client::Notification);
            assert_eq!(start.access_token, "a1");
            assert_eq!(start.notification_url, "wss://eventsub/ws");
        }
        _ => panic!("no restart"),
    }
    match s.on_finished(Finished::Notification { outcome: ClientOutcome::Closed }) {
        Decision::Restart { cancel, .. } => assert_eq!(cancel, Client::Chat),
        _ => panic!("no restart"),
    }
    assert!(!s.refreshing);
}

#[test]
fn reconnect_request_restarts_at_the_new_url() {
    let mut s = supervisor();
    let outcome = ClientOutcome::ReconnectRequested { url: String::from("wss://next/ws") };
    match s.on_finished(Finished::Notification { outcome }) {
        Decision::Restart { cancel, start } => {
            assert_eq!(cancel, Client::Chat);
            assert_eq!(start.access_token, "a1");
            assert_eq!(start.notification_url, "wss://next/ws");
        }
        _ => panic!("no restart"),
    }
    match s.on_finished(Finished::Notification { outcome: ClientOutcome::ConnectionError }) {
        Decision::Restart { start, .. } => assert_eq!(start.notification_url, "wss://eventsub/ws"),
        _ => panic!("no restart"),
    }
}

#[test]
fn failed_task_is_fatal() {
    let mut s = supervisor();
    assert!(matches!(s.on_finished(Finished::Failed), Decision::Fail));
}
