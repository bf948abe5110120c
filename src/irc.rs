//! The chat protocol: the line grammar, the handshake, and what the chat
//! client does with each line it receives.
use vstd::prelude::*;

use crate::text::{
    chars_of, concat, contains_in, find_char, index_of, lemma_index_of, lemma_index_of_append,
    lemma_index_of_contains, lemma_index_of_take, matches_at, occurs_at, opt_view, string_of,
};

verus! {

/// One line received on the chat connection, classified.
pub enum ChatEvent {
    /// `[@<tags> ]:<user>!<ident>@<host>.tmi.twitch.tv PRIVMSG #<channel> :<text>`
    Chat { user: String, channel: String, text: String, message_id: Option<String> },
    /// The server refused the credentials.
    AuthExpired,
    /// `PING :<host>`: the server asks for `PONG :<host>`.
    Keepalive { host: String },
    /// Anything else, kept whole.
    Unrecognized { raw: String },
}

pub enum ChatEventView {
    Chat { user: Seq<char>, channel: Seq<char>, text: Seq<char>, message_id: Option<Seq<char>> },
    AuthExpired,
    Keepalive { host: Seq<char> },
    Unrecognized { raw: Seq<char> },
}

impl View for ChatEvent {
    type V = ChatEventView;

    open spec fn view(&self) -> ChatEventView {
        match self {
            ChatEvent::Chat { user, channel, text, message_id } => ChatEventView::Chat {
                user: user@,
                channel: channel@,
                text: text@,
                message_id: opt_view(*message_id),
            },
            ChatEvent::AuthExpired => ChatEventView::AuthExpired,
            ChatEvent::Keepalive { host } => ChatEventView::Keepalive { host: host@ },
            ChatEvent::Unrecognized { raw } => ChatEventView::Unrecognized { raw: raw@ },
        }
    }
}

pub open spec fn host_suffix() -> Seq<char> {
    ".tmi.twitch.tv"@
}

pub open spec fn privmsg_marker() -> Seq<char> {
    " PRIVMSG #"@
}

pub open spec fn login_failed_notice() -> Seq<char> {
    ":tmi.twitch.tv NOTICE * :Login authentication failed"@
}

pub open spec fn ping_head() -> Seq<char> {
    "PING :"@
}

pub open spec fn pong_head() -> Seq<char> {
    "PONG :"@
}

/// The first line of a frame: up to the first `'\n'`, without a final `'\r'`.
pub open spec fn first_line(s: Seq<char>) -> Seq<char> {
    let t = s.take(index_of(s, '\n'));
    if t.len() > 0 && t.last() == '\r' {
        t.drop_last()
    } else {
        t
    }
}

/// The user of a sender prefix `<user>!<ident>@<host>.tmi.twitch.tv`, where
/// the user holds no `'!'` and the ident and the host are not empty.
pub open spec fn prefix_user(p: Seq<char>) -> Option<Seq<char>> {
    let u = index_of(p, '!');
    let r = p.skip(u + 1);
    let m = r.len() - host_suffix().len();
    if 1 <= u < p.len() && m >= 3 && r.skip(m) == host_suffix() && exists|j: int|
        1 <= j < m - 1 && r[j] == '@' {
        Some(p.take(u))
    } else {
        None
    }
}

/// User, channel and text of `:<prefix> PRIVMSG #<channel> :<text>`, where the
/// prefix ends at the first space, the channel at the first `':'` (which must
/// follow a space), and neither the channel nor the text is empty.
pub open spec fn privmsg_parts(m: Seq<char>) -> Option<(Seq<char>, Seq<char>, Seq<char>)> {
    let body = m.drop_first();
    let k = index_of(body, ' ');
    let rest = body.skip(k + privmsg_marker().len());
    let q = index_of(rest, ':');
    if m.len() > 0 && m[0] == ':' && occurs_at(body, privmsg_marker(), k) && 2 <= q && q + 1
        < rest.len() && rest[q - 1] == ' ' && prefix_user(body.take(k)) is Some {
        Some((prefix_user(body.take(k))->0, rest.take(q - 1), rest.skip(q + 1)))
    } else {
        None
    }
}

/// Tags, user, channel and text of a chat line: an optional
/// `@<tags> ` segment (tags not empty, up to the first space) before the
/// message itself.
pub open spec fn chat_parts(l: Seq<char>) -> Option<
    (Option<Seq<char>>, Seq<char>, Seq<char>, Seq<char>),
> {
    if l.len() > 0 && l[0] == '@' {
        let sp = index_of(l, ' ');
        if 2 <= sp < l.len() {
            match privmsg_parts(l.skip(sp + 1)) {
                Some((u, c, t)) => Some((Some(l.subrange(1, sp)), u, c, t)),
                None => None,
            }
        } else {
            None
        }
    } else {
        match privmsg_parts(l) {
            Some((u, c, t)) => Some((None, u, c, t)),
            None => None,
        }
    }
}

/// The value of the first tag named `id` in `name=value;name=value;...`
/// (empty when that tag has no `'='`).
pub open spec fn tag_id(g: Seq<char>) -> Option<Seq<char>>
    decreases g.len(),
{
    let e = index_of(g, ';');
    let tag = g.take(e);
    let n = index_of(tag, '=');
    proof {
        lemma_index_of(g, ';');
    }
    if tag.take(n) == "id"@ {
        Some(
            if n < tag.len() {
                tag.skip(n + 1)
            } else {
                Seq::empty()
            },
        )
    } else if e < g.len() {
        tag_id(g.skip(e + 1))
    } else {
        None
    }
}

pub open spec fn is_space(c: char) -> bool {
    c == ' ' || c == '\t' || c == '\r' || c == '\n' || c == '\x0B' || c == '\x0C'
}

pub open spec fn all_space(s: Seq<char>) -> bool {
    forall|i: int| 0 <= i < s.len() ==> is_space(s[i])
}

/// The line is the login-failure notice, with optional trailing whitespace.
pub open spec fn is_login_failed(l: Seq<char>) -> bool {
    occurs_at(l, login_failed_notice(), 0) && all_space(l.skip(login_failed_notice().len() as int))
}

/// The host of `PING :<host>`, a host being non-empty and free of spaces.
pub open spec fn ping_host(l: Seq<char>) -> Option<Seq<char>> {
    let h = l.skip(ping_head().len() as int);
    if occurs_at(l, ping_head(), 0) && h.len() > 0 && !h.contains(' ') {
        Some(h)
    } else {
        None
    }
}

/// The chat event made of the parts of a chat line.
pub open spec fn chat_event_of_parts(
    parts: (Option<Seq<char>>, Seq<char>, Seq<char>, Seq<char>),
) -> ChatEventView {
    ChatEventView::Chat {
        user: parts.1,
        channel: parts.2,
        text: parts.3,
        message_id: match parts.0 {
            Some(g) => tag_id(g),
            None => None,
        },
    }
}

/// How a frame is classified: by its first line, as a chat line, then as the
/// login-failure notice, then as a keepalive; otherwise it is unrecognized.
pub open spec fn chat_event(s: Seq<char>) -> ChatEventView {
    let l = first_line(s);
    match chat_parts(l) {
        Some(parts) => chat_event_of_parts(parts),
        None => if is_login_failed(l) {
            ChatEventView::AuthExpired
        } else if ping_host(l) is Some {
            ChatEventView::Keepalive { host: ping_host(l)->0 }
        } else {
            ChatEventView::Unrecognized { raw: s }
        },
    }
}

/// Where the `'!'` of the sender prefix `l[b..k]` stands, when the prefix is
/// well formed.
fn prefix_bang(l: &Vec<char>, b: usize, k: usize) -> (r: Option<usize>)
    requires
        b <= k <= l@.len(),
    ensures
        r is Some <==> prefix_user(l@.subrange(b as int, k as int)) is Some,
        r matches Some(u) ==> b <= u <= k && prefix_user(l@.subrange(b as int, k as int))
            == Some(l@.subrange(b as int, u as int)),
{
    let ghost p = l@.subrange(b as int, k as int);
    let u = find_char(l, b, '!');
    proof {
        assert(p == l@.skip(b as int).take(k - b));
        lemma_index_of_take(l@.skip(b as int), k - b, '!');
    }
    if u >= k || u == b {
        return None;
    }
    let ghost r = p.skip(u - b + 1);
    assert(r == l@.subrange(u + 1, k as int));
    let suffix = chars_of(".tmi.twitch.tv");
    let slen = suffix.len();
    if k - u - 1 < slen || k - u - 1 - slen < 3 {
        return None;
    }
    let m = k - u - 1 - slen;
    let at = u + 1 + m;
    if !matches_at(l, &suffix, at) {
        assert(r.skip(m as int) == l@.subrange(at as int, k as int));
        return None;
    }
    assert(r.skip(m as int) == l@.subrange(at as int, k as int));
    let found = contains_in(l, u + 2, u + m, '@');
    if !found {
        assert forall|j: int| 1 <= j < m - 1 implies r[j] != '@' by {
            assert(r[j] == l@[u + 1 + j]);
        }
        return None;
    }
    proof {
        let j = choose|j: int| u + 2 <= j < u + m && l@[j] == '@';
        assert(r[j - u - 1] == '@');
        assert(p.take(u - b) == l@.subrange(b as int, u as int));
    }
    Some(u)
}

/// User, channel and text of the message `l[start..]`.
fn privmsg_of(l: &Vec<char>, start: usize) -> (r: Option<(String, String, String)>)
    requires
        start <= l@.len(),
    ensures
        r is Some <==> privmsg_parts(l@.skip(start as int)) is Some,
        r matches Some(t) ==> privmsg_parts(l@.skip(start as int)) == Some(t@),
{
    let ghost m = l@.skip(start as int);
    if start >= l.len() || l[start] != ':' {
        return None;
    }
    let b = start + 1;
    let ghost body = m.drop_first();
    assert(body == l@.skip(b as int));
    let k = find_char(l, b, ' ');
    let marker = chars_of(" PRIVMSG #");
    let has_marker = matches_at(l, &marker, k);
    proof {
        if k + marker@.len() <= l@.len() {
            assert(body.subrange(k - b, k - b + marker@.len()) == l@.subrange(
                k as int,
                k + marker@.len(),
            ));
        }
    }
    if !has_marker {
        return None;
    }
    let r0 = k + marker.len();
    let ghost rest = body.skip(k - b + privmsg_marker().len());
    assert(rest == l@.skip(r0 as int));
    let q = find_char(l, r0, ':');
    if q - r0 < 2 || l.len() - q <= 1 || l[q - 1] != ' ' {
        return None;
    }
    let bang = prefix_bang(l, b, k);
    assert(body.take(k - b) == l@.subrange(b as int, k as int));
    match bang {
        None => None,
        Some(u) => {
            let user = string_of(l, b, u);
            let channel = string_of(l, r0, q - 1);
            let text = string_of(l, q + 1, l.len());
            assert(rest.take(q - 1 - r0) == l@.subrange(r0 as int, q - 1));
            assert(rest.skip(q + 1 - r0) == l@.subrange(q + 1, l@.len() as int));
            Some((user, channel, text))
        },
    }
}

/// The value of the first tag named `id` among the tags `l[lo..hi]`.
fn tag_id_of(l: &Vec<char>, lo: usize, hi: usize) -> (r: Option<String>)
    requires
        lo <= hi <= l@.len(),
    ensures
        opt_view(r) == tag_id(l@.subrange(lo as int, hi as int)),
    decreases hi - lo,
{
    let ghost g = l@.subrange(lo as int, hi as int);
    assert(g == l@.skip(lo as int).take(hi - lo));
    let semi = find_char(l, lo, ';');
    let e = if semi < hi { semi } else { hi };
    proof {
        lemma_index_of_take(l@.skip(lo as int), hi - lo, ';');
    }
    let ghost tag = g.take(e - lo);
    assert(tag == l@.skip(lo as int).take(e - lo));
    let eq = find_char(l, lo, '=');
    let n = if eq < e { eq } else { e };
    proof {
        lemma_index_of_take(l@.skip(lo as int), e - lo, '=');
        reveal_strlit("id");
    }
    if n - lo == 2 && l[lo] == 'i' && l[lo + 1] == 'd' {
        assert(tag.take(n - lo) == "id"@);
        if n < e {
            let v = string_of(l, n + 1, e);
            assert(tag.skip(n - lo + 1) == l@.subrange(n + 1, e as int));
            return Some(v);
        } else {
            return Some(String::new());
        }
    }
    assert(tag.take(n - lo) != "id"@) by {
        if tag.take(n - lo).len() == 2 {
            assert(tag.take(n - lo)[0] == l@[lo as int]);
            assert(tag.take(n - lo)[1] == l@[lo + 1]);
        }
    }
    if e < hi {
        assert(g.skip(e - lo + 1) == l@.subrange(e + 1, hi as int));
        tag_id_of(l, e + 1, hi)
    } else {
        None
    }
}

fn is_space_char(c: char) -> (r: bool)
    ensures
        r == is_space(c),
{
    c == ' ' || c == '\t' || c == '\r' || c == '\n' || c == '\x0B' || c == '\x0C'
}

fn is_login_failed_line(l: &Vec<char>) -> (r: bool)
    ensures
        r == is_login_failed(l@),
{
    let notice = chars_of(":tmi.twitch.tv NOTICE * :Login authentication failed");
    if !matches_at(l, &notice, 0) {
        return false;
    }
    let mut i: usize = notice.len();
    let ghost w = l@.skip(notice@.len() as int);
    while i < l.len()
        invariant
            notice@ == login_failed_notice(),
            notice@.len() <= i <= l@.len(),
            w == l@.skip(notice@.len() as int),
            forall|j: int| 0 <= j < i - notice@.len() ==> is_space(w[j]),
        decreases l@.len() - i,
    {
        if !is_space_char(l[i]) {
            assert(!is_space(w[i - notice@.len()]));
            return false;
        }
        i = i + 1;
    }
    true
}

fn ping_host_of(l: &Vec<char>) -> (r: Option<String>)
    ensures
        opt_view(r) == ping_host(l@),
{
    let head = chars_of("PING :");
    if !matches_at(l, &head, 0) {
        return None;
    }
    let h0 = head.len();
    if h0 >= l.len() {
        return None;
    }
    let sp = find_char(l, h0, ' ');
    proof {
        lemma_index_of_contains(l@.skip(h0 as int), ' ');
    }
    if sp < l.len() {
        return None;
    }
    Some(string_of(l, h0, l.len()))
}

/// The chat line `l`, when it is one.
fn chat_of(l: &Vec<char>) -> (r: Option<ChatEvent>)
    ensures
        r is Some <==> chat_parts(l@) is Some,
        r matches Some(e) ==> e@ == chat_event_of_parts(chat_parts(l@)->0),
{
    if l.len() > 0 && l[0] == '@' {
        let sp = find_char(l, 0, ' ');
        assert(l@.skip(0) == l@);
        if sp < 2 || sp >= l.len() {
            return None;
        }
        match privmsg_of(l, sp + 1) {
            None => None,
            Some((user, channel, text)) => {
                let message_id = tag_id_of(l, 1, sp);
                Some(ChatEvent::Chat { user, channel, text, message_id })
            },
        }
    } else {
        assert(l@.skip(0) == l@);
        match privmsg_of(l, 0) {
            None => None,
            Some((user, channel, text)) => Some(
                ChatEvent::Chat { user, channel, text, message_id: None },
            ),
        }
    }
}

/// Classifies one frame received on the chat connection. Never fails:
/// what matches no rule is `Unrecognized`.
pub fn parse_message(frame: &str) -> (r: ChatEvent)
    ensures
        r@ == chat_event(frame@),
{
    let mut v = chars_of(frame);
    let nl = find_char(&v, 0, '\n');
    assert(v@.skip(0) == v@);
    let mut end = nl;
    if end > 0 && v[end - 1] == '\r' {
        end = end - 1;
    }
    v.truncate(end);
    assert(v@ == first_line(frame@));
    match chat_of(&v) {
        Some(e) => e,
        None => {
            if is_login_failed_line(&v) {
                ChatEvent::AuthExpired
            } else {
                match ping_host_of(&v) {
                    Some(host) => ChatEvent::Keepalive { host },
                    None => ChatEvent::Unrecognized { raw: frame.to_owned() },
                }
            }
        },
    }
}

/// What the chat client does with one classified line.
pub enum ChatAction {
    /// Forward the text to the command relay; the channel and the message
    /// id say where a reply to it goes.
    Relay { text: String, channel: String, message_id: Option<String> },
    /// Send this line back on the same connection.
    Reply { line: String },
    /// End the run loop: the credentials must be refreshed.
    AuthExpired,
    /// Nothing beyond logging.
    Ignore,
}

pub enum ChatActionView {
    Relay { text: Seq<char>, channel: Seq<char>, message_id: Option<Seq<char>> },
    Reply { line: Seq<char> },
    AuthExpired,
    Ignore,
}

impl View for ChatAction {
    type V = ChatActionView;

    open spec fn view(&self) -> ChatActionView {
        match self {
            ChatAction::Relay { text, channel, message_id } => ChatActionView::Relay {
                text: text@,
                channel: channel@,
                message_id: opt_view(*message_id),
            },
            ChatAction::Reply { line } => ChatActionView::Reply { line: line@ },
            ChatAction::AuthExpired => ChatActionView::AuthExpired,
            ChatAction::Ignore => ChatActionView::Ignore,
        }
    }
}

/// Chat lines of others are relayed (the client's own are not), a keepalive
/// is answered with the matching `PONG`, a login failure ends the loop, and
/// anything else is only logged.
pub open spec fn chat_reaction(e: ChatEventView, username: Seq<char>) -> ChatActionView {
    match e {
        ChatEventView::Chat { user, channel, text, message_id } => if user == username {
            ChatActionView::Ignore
        } else {
            ChatActionView::Relay { text, channel, message_id }
        },
        ChatEventView::AuthExpired => ChatActionView::AuthExpired,
        ChatEventView::Keepalive { host } => ChatActionView::Reply { line: pong_head() + host },
        ChatEventView::Unrecognized { .. } => ChatActionView::Ignore,
    }
}

/// What to do with `event`, for a client logged in as `username`.
pub fn chat_action(event: ChatEvent, username: &str) -> (r: ChatAction)
    ensures
        r@ == chat_reaction(event@, username@),
{
    match event {
        ChatEvent::Chat { user, channel, text, message_id } => {
            if crate::text::eq_str(user.as_str(), username) {
                ChatAction::Ignore
            } else {
                ChatAction::Relay { text, channel, message_id }
            }
        },
        ChatEvent::AuthExpired => ChatAction::AuthExpired,
        ChatEvent::Keepalive { host } => ChatAction::Reply { line: concat("PONG :", host.as_str()) },
        ChatEvent::Unrecognized { .. } => ChatAction::Ignore,
    }
}

/// The reply that posts a translation under the message it translates:
/// none for an empty translation.
pub open spec fn reply_line(message_id: Seq<char>, channel: Seq<char>, translated: Seq<char>) -> Option<
    Seq<char>,
> {
    if translated.len() == 0 {
        None
    } else {
        Some("@reply-parent-msg-id="@ + message_id + privmsg_marker() + channel + " :"@ + translated)
    }
}

/// The line that replies with `translated` to the message `message_id` in
/// `channel`, if there is anything to say.
pub fn translation_reply(message_id: &str, channel: &str, translated: &str) -> (r: Option<String>)
    ensures
        opt_view(r) == reply_line(message_id@, channel@, translated@),
{
    if translated.is_empty() {
        return None;
    }
    let mut line = concat("@reply-parent-msg-id=", message_id);
    crate::text::push_str(&mut line, " PRIVMSG #");
    crate::text::push_str(&mut line, channel);
    crate::text::push_str(&mut line, " :");
    crate::text::push_str(&mut line, translated);
    Some(line)
}

/// The lines that open a chat session: password, nickname, channel, and the
/// request for message tags.
pub open spec fn handshake(access_token: Seq<char>, username: Seq<char>, channel: Seq<char>) -> Seq<
    Seq<char>,
> {
    seq![
        "PASS oauth:"@ + access_token,
        "NICK "@ + username,
        "JOIN #"@ + channel,
        "CAP REQ :twitch.tv/tags"@,
    ]
}

/// The lines to send, in order, right after the chat connection opens.
pub fn handshake_lines(access_token: &str, username: &str, channel: &str) -> (r: Vec<String>)
    ensures
        r@.map_values(|l: String| l@) == handshake(access_token@, username@, channel@),
{
    let mut r: Vec<String> = Vec::new();
    r.push(concat("PASS oauth:", access_token));
    r.push(concat("NICK ", username));
    r.push(concat("JOIN #", channel));
    r.push("CAP REQ :twitch.tv/tags".to_owned());
    assert(r@.map_values(|l: String| l@) =~= handshake(access_token@, username@, channel@));
    r
}

proof fn lemma_literal_facts()
    ensures
        host_suffix().len() == 14,
        !host_suffix().contains(' '),
        !host_suffix().contains('\n'),
        privmsg_marker().len() == 10,
        privmsg_marker()[0] == ' ',
        !privmsg_marker().contains('\n'),
{
    reveal_strlit(".tmi.twitch.tv");
    reveal_strlit(" PRIVMSG #");
}

proof fn lemma_concat_lacks(a: Seq<char>, b: Seq<char>, c: char)
    requires
        !a.contains(c),
        !b.contains(c),
    ensures
        !(a + b).contains(c),
{
    assert forall|i: int| 0 <= i < (a + b).len() implies (a + b)[i] != c by {
        if i < a.len() {
            assert((a + b)[i] == a[i]);
        } else {
            assert((a + b)[i] == b[i - a.len()]);
        }
    }
}

proof fn lemma_single_lacks(x: char, c: char)
    requires
        x != c,
    ensures
        !seq![x].contains(c),
{
    assert forall|i: int| 0 <= i < seq![x].len() implies seq![x][i] != c by {}
}

/// The message `:<user>!<ident>@<host>.tmi.twitch.tv PRIVMSG #<channel> :<text>`.
pub open spec fn privmsg_line(
    user: Seq<char>,
    ident: Seq<char>,
    host: Seq<char>,
    channel: Seq<char>,
    text: Seq<char>,
) -> Seq<char> {
    seq![':'] + user + seq!['!'] + ident + seq!['@'] + host + host_suffix() + privmsg_marker()
        + channel + seq![' ', ':'] + text
}

/// A chat line made of its parts, with or without tags.
pub open spec fn chat_line(
    tags: Option<Seq<char>>,
    user: Seq<char>,
    ident: Seq<char>,
    host: Seq<char>,
    channel: Seq<char>,
    text: Seq<char>,
) -> Seq<char> {
    match tags {
        Some(g) => seq!['@'] + g + seq![' '] + privmsg_line(user, ident, host, channel, text),
        None => privmsg_line(user, ident, host, channel, text),
    }
}

/// The parts of a chat line hold none of the characters that delimit them.
pub open spec fn chat_parts_valid(
    tags: Option<Seq<char>>,
    user: Seq<char>,
    ident: Seq<char>,
    host: Seq<char>,
    channel: Seq<char>,
    text: Seq<char>,
) -> bool {
    &&& user.len() > 0 && !user.contains('!') && !user.contains(' ') && !user.contains('\n')
    &&& ident.len() > 0 && !ident.contains(' ') && !ident.contains('\n')
    &&& host.len() > 0 && !host.contains(' ') && !host.contains('\n')
    &&& channel.len() > 0 && !channel.contains(':') && !channel.contains('\n')
    &&& text.len() > 0 && !text.contains('\n') && text.last() != '\r'
    &&& tags matches Some(g) ==> g.len() > 0 && !g.contains(' ') && !g.contains('\n')
}

proof fn lemma_prefix_user(user: Seq<char>, ident: Seq<char>, host: Seq<char>)
    requires
        user.len() > 0,
        !user.contains('!'),
        ident.len() > 0,
        host.len() > 0,
    ensures
        prefix_user(user + seq!['!'] + ident + seq!['@'] + host + host_suffix()) == Some(user),
{
    lemma_literal_facts();
    let sfx = host_suffix();
    let p = user + seq!['!'] + ident + seq!['@'] + host + sfx;
    let after_user = seq!['!'] + ident + seq!['@'] + host + sfx;
    assert(p == user + after_user);
    lemma_index_of_append(user, after_user, '!');
    assert(after_user[0] == '!');
    assert(index_of(p, '!') == user.len());
    let rr = p.skip(user.len() + 1int);
    assert(rr == ident + seq!['@'] + host + sfx);
    let mm = rr.len() - sfx.len();
    assert(rr.skip(mm) == sfx);
    assert(rr[ident.len() as int] == '@');
    assert(p.take(user.len() as int) == user);
}

proof fn lemma_privmsg_parts(
    user: Seq<char>,
    ident: Seq<char>,
    host: Seq<char>,
    channel: Seq<char>,
    text: Seq<char>,
)
    requires
        chat_parts_valid(None, user, ident, host, channel, text),
    ensures
        privmsg_parts(privmsg_line(user, ident, host, channel, text)) == Some(
            (user, channel, text),
        ),
{
    lemma_literal_facts();
    let sfx = host_suffix();
    let mk = privmsg_marker();
    let p = user + seq!['!'] + ident + seq!['@'] + host + sfx;
    let tail = seq![' ', ':'] + text;
    let r = channel + tail;
    let m = privmsg_line(user, ident, host, channel, text);
    assert(m == seq![':'] + (p + (mk + r)));
    lemma_single_lacks('!', ' ');
    lemma_single_lacks('@', ' ');
    lemma_concat_lacks(user, seq!['!'], ' ');
    lemma_concat_lacks(user + seq!['!'], ident, ' ');
    lemma_concat_lacks(user + seq!['!'] + ident, seq!['@'], ' ');
    lemma_concat_lacks(user + seq!['!'] + ident + seq!['@'], host, ' ');
    lemma_concat_lacks(user + seq!['!'] + ident + seq!['@'] + host, sfx, ' ');
    let body = m.drop_first();
    assert(body == p + (mk + r));
    lemma_index_of_append(p, mk + r, ' ');
    assert((mk + r)[0] == ' ');
    let k = index_of(body, ' ');
    assert(k == p.len());
    assert(body.subrange(k, k + mk.len()) == mk);
    assert(body.take(k) == p);
    let rest = body.skip(k + mk.len());
    assert(rest == r);
    lemma_index_of_append(channel, tail, ':');
    assert(tail.drop_first() == seq![':'] + text);
    assert((seq![':'] + text)[0] == ':');
    assert(index_of(seq![':'] + text, ':') == 0);
    assert(tail[0] == ' ');
    assert(index_of(tail, ':') == 1);
    let q = index_of(rest, ':');
    assert(q == channel.len() + 1);
    assert(rest[q - 1] == ' ');
    assert(rest.take(q - 1) == channel);
    assert(rest.skip(q + 1) == text);
    lemma_prefix_user(user, ident, host);
}

proof fn lemma_privmsg_line_lacks_newline(
    user: Seq<char>,
    ident: Seq<char>,
    host: Seq<char>,
    channel: Seq<char>,
    text: Seq<char>,
)
    requires
        chat_parts_valid(None, user, ident, host, channel, text),
    ensures
        !privmsg_line(user, ident, host, channel, text).contains('\n'),
{
    lemma_literal_facts();
    let sfx = host_suffix();
    let mk = privmsg_marker();
    lemma_single_lacks(':', '\n');
    lemma_single_lacks('!', '\n');
    lemma_single_lacks('@', '\n');
    lemma_concat_lacks(seq![':'], user, '\n');
    lemma_concat_lacks(seq![':'] + user, seq!['!'], '\n');
    lemma_concat_lacks(seq![':'] + user + seq!['!'], ident, '\n');
    lemma_concat_lacks(seq![':'] + user + seq!['!'] + ident, seq!['@'], '\n');
    lemma_concat_lacks(seq![':'] + user + seq!['!'] + ident + seq!['@'], host, '\n');
    lemma_concat_lacks(seq![':'] + user + seq!['!'] + ident + seq!['@'] + host, sfx, '\n');
    lemma_concat_lacks(seq![':'] + user + seq!['!'] + ident + seq!['@'] + host + sfx, mk, '\n');
    let upto_mk = seq![':'] + user + seq!['!'] + ident + seq!['@'] + host + sfx + mk;
    lemma_concat_lacks(upto_mk, channel, '\n');
    assert(!seq![' ', ':'].contains('\n')) by {
        assert forall|i: int| 0 <= i < 2 implies seq![' ', ':'][i] != '\n' by {}
    }
    lemma_concat_lacks(upto_mk + channel, seq![' ', ':'], '\n');
    lemma_concat_lacks(upto_mk + channel + seq![' ', ':'], text, '\n');
}

/// Every line that the chat grammar describes is classified as a chat line
/// whose user, channel and text are the ones it was made of, and whose
/// message id is that of its `id` tag.
pub proof fn lemma_chat_line_parses(
    tags: Option<Seq<char>>,
    user: Seq<char>,
    ident: Seq<char>,
    host: Seq<char>,
    channel: Seq<char>,
    text: Seq<char>,
)
    requires
        chat_parts_valid(tags, user, ident, host, channel, text),
    ensures
        chat_event(chat_line(tags, user, ident, host, channel, text)) == (ChatEventView::Chat {
            user,
            channel,
            text,
            message_id: match tags {
                Some(g) => tag_id(g),
                None => None,
            },
        }),
{
    let m = privmsg_line(user, ident, host, channel, text);
    lemma_privmsg_parts(user, ident, host, channel, text);
    lemma_privmsg_line_lacks_newline(user, ident, host, channel, text);
    let line = chat_line(tags, user, ident, host, channel, text);
    assert(line.last() == text.last());
    match tags {
        Some(g) => {
            let head = seq!['@'] + g;
            lemma_single_lacks('@', '\n');
            lemma_single_lacks(' ', '\n');
            lemma_concat_lacks(seq!['@'], g, '\n');
            lemma_concat_lacks(head, seq![' '], '\n');
            lemma_concat_lacks(head + seq![' '], m, '\n');
            lemma_index_of_contains(line, '\n');
            assert(line.take(line.len() as int) == line);
            assert(first_line(line) == line);
            lemma_single_lacks('@', ' ');
            lemma_concat_lacks(seq!['@'], g, ' ');
            assert(line == head + (seq![' '] + m));
            lemma_index_of_append(head, seq![' '] + m, ' ');
            assert((seq![' '] + m)[0] == ' ');
            let sp = index_of(line, ' ');
            assert(sp == g.len() + 1);
            assert(line.subrange(1, sp) == g);
            assert(line.skip(sp + 1) == m);
        },
        None => {
            lemma_index_of_contains(line, '\n');
            assert(line.take(line.len() as int) == line);
            assert(first_line(line) == line);
        },
    }
}

/// The login-failure notice, followed by nothing but whitespace on its
/// line, means the access token has expired.
pub proof fn lemma_login_failed_line(ws: Seq<char>)
    requires
        all_space(ws),
        !ws.contains('\n'),
    ensures
        chat_event(login_failed_notice() + ws) == ChatEventView::AuthExpired,
{
    reveal_strlit(":tmi.twitch.tv NOTICE * :Login authentication failed");
    lemma_literal_facts();
    let n = login_failed_notice();
    let s = n + ws;
    assert(!n.contains('\n'));
    lemma_concat_lacks(n, ws, '\n');
    lemma_index_of_contains(s, '\n');
    assert(s.take(s.len() as int) == s);
    let w = if ws.len() > 0 && ws.last() == '\r' {
        ws.drop_last()
    } else {
        ws
    };
    let l = n + w;
    assert(first_line(s) == l);
    assert(l.skip(n.len() as int) == w);
    assert(l.subrange(0, n.len() as int) == n);
    assert(is_login_failed(l));
    // It is no chat line: the word after the sender is not PRIVMSG.
    let body = l.drop_first();
    let a = n.subrange(1, 14);
    let b = n.skip(14) + w;
    assert(body == a + b);
    assert(!a.contains(' '));
    lemma_index_of_append(a, b, ' ');
    assert(b[0] == ' ');
    assert(index_of(body, ' ') == 13);
    reveal_strlit(" PRIVMSG #");
    assert(body[14] == n[15]);
    assert(body[14] != privmsg_marker()[1]);
    assert(!occurs_at(body, privmsg_marker(), 13)) by {
        if occurs_at(body, privmsg_marker(), 13) {
            assert(body.subrange(13, 23)[1] == body[14]);
        }
    }
    assert(chat_parts(l) is None);
}

/// `PING :<host>` on a line of its own is a keepalive, and it is answered
/// with exactly one line, `PONG :<host>`.
pub proof fn lemma_keepalive_answered(host: Seq<char>, username: Seq<char>)
    requires
        host.len() > 0,
        !host.contains(' '),
        !host.contains('\n'),
        host.last() != '\r',
    ensures
        chat_event(ping_head() + host) == (ChatEventView::Keepalive { host }),
        chat_reaction(chat_event(ping_head() + host), username) == (ChatActionView::Reply {
            line: pong_head() + host,
        }),
{
    reveal_strlit("PING :");
    reveal_strlit(":tmi.twitch.tv NOTICE * :Login authentication failed");
    let l = ping_head() + host;
    assert(!ping_head().contains('\n'));
    lemma_concat_lacks(ping_head(), host, '\n');
    lemma_index_of_contains(l, '\n');
    assert(l.take(l.len() as int) == l);
    assert(l.last() == host.last());
    assert(first_line(l) == l);
    assert(l[0] == 'P');
    assert(chat_parts(l) is None);
    assert(!is_login_failed(l)) by {
        if occurs_at(l, login_failed_notice(), 0) {
            assert(l.subrange(0, login_failed_notice().len() as int)[0] == l[0]);
        }
    }
    assert(l.subrange(0, ping_head().len() as int) == ping_head());
    assert(l.skip(ping_head().len() as int) == host);
}

/// Tags written one after another, each followed by `';'`.
pub open spec fn tag_list(ts: Seq<Seq<char>>) -> Seq<char>
    decreases ts.len(),
{
    if ts.len() == 0 {
        Seq::empty()
    } else {
        ts[0] + seq![';'] + tag_list(ts.drop_first())
    }
}

/// The name of a tag: what precedes its first `'='`.
pub open spec fn tag_name(t: Seq<char>) -> Seq<char> {
    t.take(index_of(t, '='))
}

/// Whatever tags not named `id` come first, a tag `id=<v>` gives the
/// message id `v`.
pub proof fn lemma_id_tag_found(ts: Seq<Seq<char>>, v: Seq<char>, tail: Seq<char>)
    requires
        forall|i: int| 0 <= i < ts.len() ==> !(#[trigger] ts[i]).contains(';') && tag_name(ts[i])
            != "id"@,
        !v.contains(';'),
        tail.len() == 0 || tail[0] == ';',
    ensures
        tag_id(tag_list(ts) + "id="@ + v + tail) == Some(v),
    decreases ts.len(),
{
    reveal_strlit("id=");
    reveal_strlit("id");
    let g = tag_list(ts) + "id="@ + v + tail;
    if ts.len() == 0 {
        assert(tag_list(ts) == Seq::<char>::empty());
        let head = "id="@ + v;
        assert(g == head + tail);
        assert(!"id="@.contains(';'));
        lemma_concat_lacks("id="@, v, ';');
        lemma_index_of_append(head, tail, ';');
        lemma_index_of(tail, ';');
        let e = index_of(g, ';');
        assert(e == head.len());
        assert(g.take(e) == head);
        assert(head == seq!['i', 'd'] + (seq!['='] + v));
        assert(!seq!['i', 'd'].contains('='));
        lemma_index_of_append(seq!['i', 'd'], seq!['='] + v, '=');
        assert((seq!['='] + v)[0] == '=');
        assert(index_of(head, '=') == 2);
        assert(head.take(2) == "id"@);
        assert(head.skip(3) == v);
    } else {
        let t = ts[0];
        let rest = ts.drop_first();
        assert forall|i: int| 0 <= i < rest.len() implies !(#[trigger] rest[i]).contains(';')
            && tag_name(rest[i]) != "id"@ by {
            assert(rest[i] == ts[i + 1]);
        }
        lemma_id_tag_found(rest, v, tail);
        let g2 = tag_list(rest) + "id="@ + v + tail;
        assert(g == t + (seq![';'] + g2));
        lemma_index_of_append(t, seq![';'] + g2, ';');
        assert((seq![';'] + g2)[0] == ';');
        let e = index_of(g, ';');
        assert(e == t.len());
        assert(g.take(e) == t);
        assert(g.skip(e + 1) == g2);
    }
}

} // verus!
