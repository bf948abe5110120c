//! The supervisor: it starts both clients on one credentials snapshot, and
//! when one of them ends it decides whether to reconnect, to refresh the
//! credentials first, or to give up.
use vstd::prelude::*;

verus! {

/// Seconds to wait after a failed credential refresh before the next try.
pub const REFRESH_DELAY_SECS: u64 = 30;

/// Seconds a client waits for a frame before it waits again.
pub const IDLE_TIMEOUT_SECS: u64 = 600;

/// A credentials snapshot: the two tokens, which are replaced together, and
/// the user they belong to.
pub struct DBStore {
    pub access_token: String,
    pub refresh_token: String,
    pub user_id: String,
}

pub struct CredentialsView {
    pub access_token: Seq<char>,
    pub refresh_token: Seq<char>,
    pub user_id: Seq<char>,
}

impl View for DBStore {
    type V = CredentialsView;

    open spec fn view(&self) -> CredentialsView {
        CredentialsView {
            access_token: self.access_token@,
            refresh_token: self.refresh_token@,
            user_id: self.user_id@,
        }
    }
}

/// How a client's run ended.
pub enum ClientOutcome {
    /// The connection closed, or its stream ended.
    Closed,
    /// A transport or protocol error.
    ConnectionError,
    /// The server refused the access token.
    AuthExpired,
    /// The server asked for a new connection at this URL.
    ReconnectRequested { url: String },
}

pub enum OutcomeView {
    Closed,
    ConnectionError,
    AuthExpired,
    ReconnectRequested { url: Seq<char> },
}

impl View for ClientOutcome {
    type V = OutcomeView;

    open spec fn view(&self) -> OutcomeView {
        match self {
            ClientOutcome::Closed => OutcomeView::Closed,
            ClientOutcome::ConnectionError => OutcomeView::ConnectionError,
            ClientOutcome::AuthExpired => OutcomeView::AuthExpired,
            ClientOutcome::ReconnectRequested { url } => OutcomeView::ReconnectRequested {
                url: url@,
            },
        }
    }
}

/// One of the two clients.
#[derive(Clone, Copy, Debug, PartialEq, Eq, Structural)]
pub enum Client {
    Chat,
    Notification,
}

/// The first of the two client tasks to end, and how.
pub enum Finished {
    Chat { outcome: ClientOutcome },
    Notification { outcome: ClientOutcome },
    /// The task itself failed (it panicked or was cancelled from outside).
    Failed,
}

pub enum FinishedView {
    Chat { outcome: OutcomeView },
    Notification { outcome: OutcomeView },
    Failed,
}

impl View for Finished {
    type V = FinishedView;

    open spec fn view(&self) -> FinishedView {
        match self {
            Finished::Chat { outcome } => FinishedView::Chat { outcome: outcome@ },
            Finished::Notification { outcome } => FinishedView::Notification { outcome: outcome@ },
            Finished::Failed => FinishedView::Failed,
        }
    }
}

/// Start both clients: the chat client with this access token, the
/// notification client at this URL with the same token.
pub struct Start {
    pub access_token: String,
    pub notification_url: String,
}

pub struct StartView {
    pub access_token: Seq<char>,
    pub notification_url: Seq<char>,
}

impl View for Start {
    type V = StartView;

    open spec fn view(&self) -> StartView {
        StartView { access_token: self.access_token@, notification_url: self.notification_url@ }
    }
}

/// What to do when a client task ends.
pub enum Decision {
    /// Cancel the other client and wait until it is gone, then start both.
    Restart { cancel: Client, start: Start },
    /// Cancel the other client and wait until it is gone, then refresh the
    /// credentials with this refresh token.
    Refresh { cancel: Client, refresh_token: String },
    /// Give up: the failure is fatal.
    Fail,
}

pub enum DecisionView {
    Restart { cancel: Client, start: StartView },
    Refresh { cancel: Client, refresh_token: Seq<char> },
    Fail,
}

impl View for Decision {
    type V = DecisionView;

    open spec fn view(&self) -> DecisionView {
        match self {
            Decision::Restart { cancel, start } => DecisionView::Restart {
                cancel: *cancel,
                start: start@,
            },
            Decision::Refresh { cancel, refresh_token } => DecisionView::Refresh {
                cancel: *cancel,
                refresh_token: refresh_token@,
            },
            Decision::Fail => DecisionView::Fail,
        }
    }
}

/// What to do when a credential refresh has ended.
pub enum RefreshDecision {
    /// Wait this long, then refresh again.
    RetryAfter { seconds: u64 },
    /// Start both clients.
    Start { start: Start },
}

pub enum RefreshDecisionView {
    RetryAfter { seconds: u64 },
    Start { start: StartView },
}

impl View for RefreshDecision {
    type V = RefreshDecisionView;

    open spec fn view(&self) -> RefreshDecisionView {
        match self {
            RefreshDecision::RetryAfter { seconds } => RefreshDecisionView::RetryAfter {
                seconds: *seconds,
            },
            RefreshDecision::Start { start } => RefreshDecisionView::Start { start: start@ },
        }
    }
}

/// The supervisor's state: the credentials snapshot, the notification
/// endpoint, and whether a credential refresh is in flight.
pub struct Supervisor {
    pub credentials: DBStore,
    pub endpoint: String,
    pub refreshing: bool,
}

pub struct SupervisorView {
    pub credentials: CredentialsView,
    pub endpoint: Seq<char>,
    pub refreshing: bool,
}

impl View for Supervisor {
    type V = SupervisorView;

    open spec fn view(&self) -> SupervisorView {
        SupervisorView {
            credentials: self.credentials@,
            endpoint: self.endpoint@,
            refreshing: self.refreshing,
        }
    }
}

/// Both clients on the snapshot's access token.
pub open spec fn start_of(s: SupervisorView, url: Seq<char>) -> StartView {
    StartView { access_token: s.credentials.access_token, notification_url: url }
}

/// The reaction to `outcome` of one client, `other` being its sibling.
pub open spec fn react(s: SupervisorView, other: Client, outcome: OutcomeView) -> (
    SupervisorView,
    DecisionView,
) {
    match outcome {
        OutcomeView::AuthExpired => (
            SupervisorView { refreshing: true, ..s },
            DecisionView::Refresh { cancel: other, refresh_token: s.credentials.refresh_token },
        ),
        OutcomeView::ReconnectRequested { url } => (
            s,
            DecisionView::Restart { cancel: other, start: start_of(s, url) },
        ),
        _ => (s, DecisionView::Restart { cancel: other, start: start_of(s, s.endpoint) }),
    }
}

/// A clean close or a connection error restarts both clients on the same
/// token; a reconnect request restarts them with the notification client at
/// the new URL; an expired token starts a refresh; a failed task is fatal.
/// The sibling of the client that ended is cancelled first in every case.
pub open spec fn finished_step(s: SupervisorView, f: FinishedView) -> (
    SupervisorView,
    DecisionView,
) {
    match f {
        FinishedView::Chat { outcome } => react(s, Client::Notification, outcome),
        FinishedView::Notification { outcome } => react(s, Client::Chat, outcome),
        FinishedView::Failed => (s, DecisionView::Fail),
    }
}

/// A failed refresh waits the fixed delay and leaves everything as it is; a
/// successful one replaces both tokens together and starts both clients on
/// the new access token.
pub open spec fn refreshed_step(s: SupervisorView, tokens: Option<(Seq<char>, Seq<char>)>) -> (
    SupervisorView,
    RefreshDecisionView,
) {
    match tokens {
        None => (s, RefreshDecisionView::RetryAfter { seconds: REFRESH_DELAY_SECS }),
        Some((access, refresh)) => {
            let next = SupervisorView {
                credentials: CredentialsView {
                    access_token: access,
                    refresh_token: refresh,
                    user_id: s.credentials.user_id,
                },
                endpoint: s.endpoint,
                refreshing: false,
            };
            (next, RefreshDecisionView::Start { start: start_of(next, s.endpoint) })
        },
    }
}

pub open spec fn tokens_view(t: Option<(String, String)>) -> Option<(Seq<char>, Seq<char>)> {
    match t {
        Some((a, r)) => Some((a@, r@)),
        None => None,
    }
}

fn copy_string(s: &String) -> (r: String)
    ensures
        r@ == s@,
{
    s.clone()
}

impl Supervisor {
    /// A supervisor on these credentials, with the notification client's
    /// fixed endpoint.
    pub fn new(credentials: DBStore, endpoint: String) -> (r: Supervisor)
        ensures
            r@ == (SupervisorView {
                credentials: credentials@,
                endpoint: endpoint@,
                refreshing: false,
            }),
    {
        Supervisor { credentials, endpoint, refreshing: false }
    }

    /// The first start of both clients.
    pub fn start(&self) -> (r: Start)
        requires
            !self.refreshing,
        ensures
            r@ == start_of(self@, self@.endpoint),
    {
        Start {
            access_token: copy_string(&self.credentials.access_token),
            notification_url: copy_string(&self.endpoint),
        }
    }

    fn react(&mut self, other: Client, outcome: ClientOutcome) -> (r: Decision)
        requires
            !old(self).refreshing,
        ensures
            (final(self)@, r@) == react(old(self)@, other, outcome@),
    {
        match outcome {
            ClientOutcome::AuthExpired => {
                self.refreshing = true;
                Decision::Refresh {
                    cancel: other,
                    refresh_token: copy_string(&self.credentials.refresh_token),
                }
            },
            ClientOutcome::ReconnectRequested { url } => Decision::Restart {
                cancel: other,
                start: Start {
                    access_token: copy_string(&self.credentials.access_token),
                    notification_url: url,
                },
            },
            _ => Decision::Restart { cancel: other, start: self.start() },
        }
    }

    /// What to do now that one client task has ended.
    pub fn on_finished(&mut self, finished: Finished) -> (r: Decision)
        requires
            !old(self).refreshing,
        ensures
            (final(self)@, r@) == finished_step(old(self)@, finished@),
    {
        match finished {
            Finished::Chat { outcome } => self.react(Client::Notification, outcome),
            Finished::Notification { outcome } => self.react(Client::Chat, outcome),
            Finished::Failed => Decision::Fail,
        }
    }

    /// What to do now that a refresh has ended, with the new access and
    /// refresh tokens when it succeeded.
    pub fn on_refreshed(&mut self, tokens: Option<(String, String)>) -> (r: RefreshDecision)
        requires
            old(self).refreshing,
        ensures
            (final(self)@, r@) == refreshed_step(old(self)@, tokens_view(tokens)),
    {
        match tokens {
            None => RefreshDecision::RetryAfter { seconds: REFRESH_DELAY_SECS },
            Some((access_token, refresh_token)) => {
                self.credentials.access_token = access_token;
                self.credentials.refresh_token = refresh_token;
                self.refreshing = false;
                RefreshDecision::Start { start: self.start() }
            },
        }
    }
}

/// The state after `k` failed refreshes.
pub open spec fn after_failures(s: SupervisorView, k: nat) -> SupervisorView
    decreases k,
{
    if k == 0 {
        s
    } else {
        refreshed_step(after_failures(s, (k - 1) as nat), None).0
    }
}

proof fn lemma_failures_keep_state(s: SupervisorView, k: nat)
    ensures
        after_failures(s, k) == s,
    decreases k,
{
    if k > 0 {
        lemma_failures_keep_state(s, (k - 1) as nat);
    }
}

/// When the chat client ends with an expired token, the notification client
/// is cancelled before the refresh begins; every failed refresh is retried
/// after the same fixed delay with nothing else changed; and once a refresh
/// succeeds, both tokens are replaced together and the clients restart on
/// the new access token.
pub proof fn lemma_expired_token_refresh(
    s: SupervisorView,
    failures: nat,
    access: Seq<char>,
    refresh: Seq<char>,
)
    requires
        !s.refreshing,
    ensures
        ({
            let (waiting, d) = finished_step(s, FinishedView::Chat { outcome: OutcomeView::AuthExpired });
            &&& d == DecisionView::Refresh {
                cancel: Client::Notification,
                refresh_token: s.credentials.refresh_token,
            }
            &&& waiting.refreshing
            &&& forall|k: nat|
                k < failures ==> #[trigger] refreshed_step(after_failures(waiting, k), None) == (
                    waiting,
                    RefreshDecisionView::RetryAfter { seconds: REFRESH_DELAY_SECS },
                )
            &&& ({
                let (after, d2) = refreshed_step(
                    after_failures(waiting, failures),
                    Some((access, refresh)),
                );
                &&& d2 == RefreshDecisionView::Start {
                    start: StartView { access_token: access, notification_url: s.endpoint },
                }
                &&& after.credentials == CredentialsView {
                    access_token: access,
                    refresh_token: refresh,
                    user_id: s.credentials.user_id,
                }
                &&& !after.refreshing
            })
        }),
{
    let (waiting, d) = finished_step(s, FinishedView::Chat { outcome: OutcomeView::AuthExpired });
    assert forall|k: nat| k < failures implies #[trigger] refreshed_step(
        after_failures(waiting, k),
        None,
    ) == (waiting, RefreshDecisionView::RetryAfter { seconds: REFRESH_DELAY_SECS }) by {
        lemma_failures_keep_state(waiting, k);
    }
    lemma_failures_keep_state(waiting, failures);
}

} // verus!
