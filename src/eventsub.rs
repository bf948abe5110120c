//! The event notification session: what the client does with each frame of
//! one connection.
use vstd::prelude::*;

use crate::text::{opt_view, replace, replace_all};

verus! {

/// The session a welcome or reconnect message describes.
pub struct Session {
    pub id: String,
    pub reconnect_url: Option<String>,
}

/// The part of a follow notification that the client reads.
pub struct FollowEvent {
    pub user_name: String,
}

/// One decoded notification message.
pub struct NotificationEnvelope {
    pub message_type: String,
    pub subscription_type: Option<String>,
    pub session: Option<Session>,
    pub event: Option<FollowEvent>,
}

pub struct EnvelopeView {
    pub message_type: Seq<char>,
    pub subscription_type: Option<Seq<char>>,
    pub session: Option<(Seq<char>, Option<Seq<char>>)>,
    pub user_name: Option<Seq<char>>,
}

impl View for NotificationEnvelope {
    type V = EnvelopeView;

    open spec fn view(&self) -> EnvelopeView {
        EnvelopeView {
            message_type: self.message_type@,
            subscription_type: opt_view(self.subscription_type),
            session: match self.session {
                Some(s) => Some((s.id@, opt_view(s.reconnect_url))),
                None => None,
            },
            user_name: match self.event {
                Some(e) => Some(e.user_name@),
                None => None,
            },
        }
    }
}

/// One frame received on the notification connection.
pub enum NotificationFrame {
    /// A ping, with its payload.
    Ping { payload: Vec<u8> },
    /// A message that decoded.
    Message { envelope: NotificationEnvelope },
    /// A text or binary message that did not decode.
    Undecodable,
    /// Any other frame.
    Other,
}

pub enum FrameView {
    Ping { payload: Seq<u8> },
    Message { envelope: EnvelopeView },
    Undecodable,
    Other,
}

impl View for NotificationFrame {
    type V = FrameView;

    open spec fn view(&self) -> FrameView {
        match self {
            NotificationFrame::Ping { payload } => FrameView::Ping { payload: payload@ },
            NotificationFrame::Message { envelope } => FrameView::Message { envelope: envelope@ },
            NotificationFrame::Undecodable => FrameView::Undecodable,
            NotificationFrame::Other => FrameView::Other,
        }
    }
}

/// What the notification client does with one frame.
pub enum NotificationAction {
    /// Answer with a pong carrying these bytes.
    Pong { payload: Vec<u8> },
    /// Register the subscriptions for this session; a failure ends the
    /// connection with a connection error.
    Subscribe { session_id: String },
    /// Forward the text to the command relay.
    Relay { text: String },
    /// End the connection: the server asks for a new one at this URL.
    Reconnect { url: String },
    /// End the connection with a connection error.
    ConnectionError,
    /// Nothing beyond logging.
    Ignore,
}

pub enum ActionView {
    Pong { payload: Seq<u8> },
    Subscribe { session_id: Seq<char> },
    Relay { text: Seq<char> },
    Reconnect { url: Seq<char> },
    ConnectionError,
    Ignore,
}

impl View for NotificationAction {
    type V = ActionView;

    open spec fn view(&self) -> ActionView {
        match self {
            NotificationAction::Pong { payload } => ActionView::Pong { payload: payload@ },
            NotificationAction::Subscribe { session_id } => ActionView::Subscribe {
                session_id: session_id@,
            },
            NotificationAction::Relay { text } => ActionView::Relay { text: text@ },
            NotificationAction::Reconnect { url } => ActionView::Reconnect { url: url@ },
            NotificationAction::ConnectionError => ActionView::ConnectionError,
            NotificationAction::Ignore => ActionView::Ignore,
        }
    }
}

/// The placeholder of the greeting template that the follower's name replaces.
pub open spec fn name_placeholder() -> Seq<char> {
    "user_name"@
}

/// The greeting for a follower.
pub open spec fn greeting(template: Seq<char>, user_name: Option<Seq<char>>) -> Seq<char> {
    replace_all(
        template,
        name_placeholder(),
        match user_name {
            Some(n) => n,
            None => "Unknown user"@,
        },
    )
}

/// One step of a connection: whether its subscriptions are registered, and
/// a frame, give the new flag and the action. Pings are echoed; a welcome
/// registers the subscriptions once per connection; a reconnect request
/// ends the connection with the new URL; a follow notification is greeted;
/// an undecodable message is a connection error.
pub open spec fn notification_step(subscribed: bool, f: FrameView, template: Seq<char>) -> (
    bool,
    ActionView,
) {
    match f {
        FrameView::Ping { payload } => (subscribed, ActionView::Pong { payload }),
        FrameView::Undecodable => (subscribed, ActionView::ConnectionError),
        FrameView::Other => (subscribed, ActionView::Ignore),
        FrameView::Message { envelope: e } => if e.message_type == "session_welcome"@ {
            if subscribed {
                (true, ActionView::Ignore)
            } else {
                (
                    true,
                    ActionView::Subscribe {
                        session_id: match e.session {
                            Some(s) => s.0,
                            None => Seq::empty(),
                        },
                    },
                )
            }
        } else if e.message_type == "session_reconnect"@ {
            (
                subscribed,
                ActionView::Reconnect {
                    url: match e.session {
                        Some(s) => match s.1 {
                            Some(u) => u,
                            None => Seq::empty(),
                        },
                        None => Seq::empty(),
                    },
                },
            )
        } else if e.message_type == "notification"@ && e.subscription_type == Some(
            "channel.follow"@,
        ) {
            (subscribed, ActionView::Relay { text: greeting(template, e.user_name) })
        } else {
            (subscribed, ActionView::Ignore)
        },
    }
}

/// The state of one notification connection.
pub struct NotificationClient {
    /// The subscriptions of this connection's session are registered.
    pub subscribed: bool,
}

impl NotificationClient {
    /// The state of a fresh connection.
    pub fn new() -> (r: NotificationClient)
        ensures
            !r.subscribed,
    {
        NotificationClient { subscribed: false }
    }

    /// What to do with `frame`, greeting followers with `greeting_template`.
    pub fn on_frame(&mut self, frame: NotificationFrame, greeting_template: &str) -> (r:
        NotificationAction)
        ensures
            (final(self).subscribed, r@) == notification_step(
                old(self).subscribed,
                frame@,
                greeting_template@,
            ),
    {
        match frame {
            NotificationFrame::Ping { payload } => NotificationAction::Pong { payload },
            NotificationFrame::Undecodable => NotificationAction::ConnectionError,
            NotificationFrame::Other => NotificationAction::Ignore,
            NotificationFrame::Message { envelope } => {
                let ghost e = envelope@;
                let kind = envelope.message_type.as_str();
                if crate::text::eq_str(kind, "session_welcome") {
                    if self.subscribed {
                        NotificationAction::Ignore
                    } else {
                        self.subscribed = true;
                        let session_id = match envelope.session {
                            Some(s) => s.id,
                            None => String::new(),
                        };
                        NotificationAction::Subscribe { session_id }
                    }
                } else if crate::text::eq_str(kind, "session_reconnect") {
                    let url = match envelope.session {
                        Some(s) => match s.reconnect_url {
                            Some(u) => u,
                            None => String::new(),
                        },
                        None => String::new(),
                    };
                    NotificationAction::Reconnect { url }
                } else if crate::text::eq_str(kind, "notification") && match &envelope.subscription_type {
                    Some(t) => crate::text::eq_str(t.as_str(), "channel.follow"),
                    None => false,
                } {
                    let user_name = match envelope.event {
                        Some(ev) => ev.user_name,
                        None => "Unknown user".to_owned(),
                    };
                    proof {
                        reveal_strlit("user_name");
                    }
                    let text = replace(greeting_template, "user_name", user_name.as_str());
                    NotificationAction::Relay { text }
                } else {
                    NotificationAction::Ignore
                }
            },
        }
    }
}

/// The actions of a connection that starts in state `subscribed` and
/// receives `frames`, in order.
pub open spec fn run_frames(subscribed: bool, frames: Seq<FrameView>, template: Seq<char>) -> Seq<
    ActionView,
>
    decreases frames.len(),
{
    if frames.len() == 0 {
        Seq::empty()
    } else {
        let (next, a) = notification_step(subscribed, frames[0], template);
        seq![a] + run_frames(next, frames.drop_first(), template)
    }
}

/// How many registrations a sequence of actions holds.
pub open spec fn registrations(actions: Seq<ActionView>) -> nat
    decreases actions.len(),
{
    if actions.len() == 0 {
        0
    } else {
        (if actions[0] is Subscribe {
            1nat
        } else {
            0nat
        }) + registrations(actions.drop_first())
    }
}

pub open spec fn is_welcome(f: FrameView) -> bool {
    f matches FrameView::Message { envelope } && envelope.message_type == "session_welcome"@
}

proof fn lemma_no_registration_once_subscribed(frames: Seq<FrameView>, template: Seq<char>)
    ensures
        registrations(run_frames(true, frames, template)) == 0,
    decreases frames.len(),
{
    if frames.len() > 0 {
        let (next, a) = notification_step(true, frames[0], template);
        lemma_no_registration_once_subscribed(frames.drop_first(), template);
        let acts = run_frames(true, frames, template);
        assert(acts.drop_first() == run_frames(next, frames.drop_first(), template));
    }
}

/// On one connection the subscriptions are registered exactly once when a
/// welcome arrives, and never when none does.
pub proof fn lemma_single_registration(frames: Seq<FrameView>, template: Seq<char>)
    ensures
        registrations(run_frames(false, frames, template)) == if exists|i: int|
            0 <= i < frames.len() && is_welcome(#[trigger] frames[i]) {
            1nat
        } else {
            0nat
        },
    decreases frames.len(),
{
    if frames.len() > 0 {
        let (next, a) = notification_step(false, frames[0], template);
        let acts = run_frames(false, frames, template);
        let rest = frames.drop_first();
        assert(acts.drop_first() == run_frames(next, rest, template));
        if is_welcome(frames[0]) {
            lemma_no_registration_once_subscribed(rest, template);
        } else {
            lemma_single_registration(rest, template);
            if exists|i: int| 0 <= i < rest.len() && is_welcome(#[trigger] rest[i]) {
                let i = choose|i: int| 0 <= i < rest.len() && is_welcome(#[trigger] rest[i]);
                assert(is_welcome(frames[i + 1]));
            }
            if exists|i: int| 0 <= i < frames.len() && is_welcome(#[trigger] frames[i]) {
                let i = choose|i: int| 0 <= i < frames.len() && is_welcome(#[trigger] frames[i]);
                assert(i > 0);
                assert(is_welcome(rest[i - 1]));
            }
        }
    }
}

} // verus!
