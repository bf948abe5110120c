//! Operation routing strings, `<scheme>:[//host[:port]]/<op-name>[?query]`:
//! the operation they name, the remote that performs it, and its parameters.
use vstd::prelude::*;

use crate::text::{eq_str, opt_view, push_char, push_str, string_of, chars_of};

verus! {

/// Declares `url::ParseError`, the URL parser's error, which a refused
/// routing string carries as its cause.
#[verifier::external_type_specification]
#[verifier::external_body]
pub struct ExParseError(url::ParseError);

/// What the command relay can be asked to do.
#[derive(Clone, Copy, Debug, PartialEq, Eq, Structural)]
pub enum Operation {
    Translate,
    Tts,
    Playback,
    Subtitle,
    VoiceChange,
    Reload,
    Pause,
    Resume,
    Forward,
}

/// The operation that a name stands for, aliases included.
pub open spec fn operation_named(name: Seq<char>) -> Option<Operation> {
    if name == "transl"@ || name == "translate"@ {
        Some(Operation::Translate)
    } else if name == "tts"@ {
        Some(Operation::Tts)
    } else if name == "play"@ || name == "playback"@ {
        Some(Operation::Playback)
    } else if name == "sub"@ || name == "subtitle"@ {
        Some(Operation::Subtitle)
    } else if name == "vc"@ {
        Some(Operation::VoiceChange)
    } else if name == "reload"@ {
        Some(Operation::Reload)
    } else if name == "pause"@ {
        Some(Operation::Pause)
    } else if name == "resume"@ {
        Some(Operation::Resume)
    } else if name == "forward"@ || name == "fwd"@ {
        Some(Operation::Forward)
    } else {
        None
    }
}

/// The operation named `name`, if any.
pub fn operation_from_name(name: &str) -> (r: Option<Operation>)
    ensures
        r == operation_named(name@),
{
    if eq_str(name, "transl") || eq_str(name, "translate") {
        Some(Operation::Translate)
    } else if eq_str(name, "tts") {
        Some(Operation::Tts)
    } else if eq_str(name, "play") || eq_str(name, "playback") {
        Some(Operation::Playback)
    } else if eq_str(name, "sub") || eq_str(name, "subtitle") {
        Some(Operation::Subtitle)
    } else if eq_str(name, "vc") {
        Some(Operation::VoiceChange)
    } else if eq_str(name, "reload") {
        Some(Operation::Reload)
    } else if eq_str(name, "pause") {
        Some(Operation::Pause)
    } else if eq_str(name, "resume") {
        Some(Operation::Resume)
    } else if eq_str(name, "forward") || eq_str(name, "fwd") {
        Some(Operation::Forward)
    } else {
        None
    }
}

/// The parts of an absolute URL that a route is made of: the path, the
/// host, the port (or the scheme's known default) and the decoded query
/// pairs in order.
pub struct UrlParts {
    pub path: String,
    pub host: Option<String>,
    pub port: Option<u16>,
    pub query: Vec<(String, String)>,
}

pub open spec fn pairs_view(q: Seq<(String, String)>) -> Seq<(Seq<char>, Seq<char>)> {
    q.map_values(|kv: (String, String)| kv@)
}

impl View for UrlParts {
    type V = (Seq<char>, Option<Seq<char>>, Option<u16>, Seq<(Seq<char>, Seq<char>)>);

    open spec fn view(&self) -> Self::V {
        (self.path@, opt_view(self.host), self.port, pairs_view(self.query@))
    }
}

/// What `url::Url::parse` makes of a string: its path, host, port or known
/// default port, and decoded query pairs; `None` where it is no absolute URL.
pub uninterp spec fn url_parts(s: Seq<char>) -> Option<
    (Seq<char>, Option<Seq<char>>, Option<u16>, Seq<(Seq<char>, Seq<char>)>),
>;

/// Relies on `url::Url::parse`, then on the parsed URL's `path`, `host_str`,
/// `port_or_known_default` and `query_pairs`: they depend on `s` alone.
#[verifier::external_body]
fn parse_url(s: &str) -> (r: Result<UrlParts, url::ParseError>)
    ensures
        match r {
            Ok(p) => url_parts(s@) == Some(p@),
            Err(_) => url_parts(s@) is None,
        },
{
    match url::Url::parse(s) {
        Ok(u) => Ok(UrlParts {
            path: u.path().to_string(),
            host: u.host_str().map(String::from),
            port: u.port_or_known_default(),
            query: u.query_pairs().into_owned().collect(),
        }),
        Err(e) => Err(e),
    }
}

/// Why a routing string was refused.
#[derive(Debug)]
pub enum VstcError {
    /// The path names no operation.
    OpConvertError { op_str: String },
    /// The string is no absolute URL.
    UrlError(url::ParseError),
}

/// An operation, the remote that performs it (`//host:port`, or empty for
/// the relay itself) and its parameters, one value per key.
pub struct OperationRoute {
    pub operation: Operation,
    pub remote: String,
    pub queries: Vec<(String, String)>,
}

pub open spec fn digit(d: nat) -> char {
    if d == 0 {
        '0'
    } else if d == 1 {
        '1'
    } else if d == 2 {
        '2'
    } else if d == 3 {
        '3'
    } else if d == 4 {
        '4'
    } else if d == 5 {
        '5'
    } else if d == 6 {
        '6'
    } else if d == 7 {
        '7'
    } else if d == 8 {
        '8'
    } else {
        '9'
    }
}

/// `n` written in decimal.
pub open spec fn decimal(n: nat) -> Seq<char>
    decreases n,
{
    if n < 10 {
        seq![digit(n)]
    } else {
        decimal(n / 10).push(digit(n % 10))
    }
}

/// `//host:port`, `//host` without a port, and empty without a host.
pub open spec fn remote_of(host: Option<Seq<char>>, port: Option<u16>) -> Seq<char> {
    match host {
        Some(h) => "//"@ + h + match port {
            Some(p) => seq![':'] + decimal(p as nat),
            None => Seq::empty(),
        },
        None => Seq::empty(),
    }
}

/// The operation name of a path: what follows its leading `'/'`.
pub open spec fn op_name(path: Seq<char>) -> Seq<char> {
    if path.len() > 0 && path[0] == '/' {
        path.drop_first()
    } else {
        Seq::empty()
    }
}

/// The value of the last pair with key `k`.
pub open spec fn last_value(q: Seq<(Seq<char>, Seq<char>)>, k: Seq<char>) -> Option<Seq<char>>
    decreases q.len(),
{
    if q.len() == 0 {
        None
    } else if q.last().0 == k {
        Some(q.last().1)
    } else {
        last_value(q.drop_last(), k)
    }
}

/// Query pairs as a mapping: a later pair overrides an earlier one.
pub open spec fn query_map(q: Seq<(Seq<char>, Seq<char>)>) -> Map<Seq<char>, Seq<char>> {
    Map::new(|k: Seq<char>| last_value(q, k) is Some, |k: Seq<char>| last_value(q, k)->0)
}

pub open spec fn keys_unique(q: Seq<(Seq<char>, Seq<char>)>) -> bool {
    forall|i: int, j: int| 0 <= i < j < q.len() ==> q[i].0 != q[j].0
}

pub open spec fn route_built(
    r: OperationRoute,
    op: Operation,
    parts: (Seq<char>, Option<Seq<char>>, Option<u16>, Seq<(Seq<char>, Seq<char>)>),
) -> bool {
    &&& r.operation == op
    &&& r.remote@ == remote_of(parts.1, parts.2)
    &&& query_map(pairs_view(r.queries@)) == query_map(parts.3)
    &&& keys_unique(pairs_view(r.queries@))
}

/// The route that the routing string `op_str`, with URL parts `parts`, gives.
pub open spec fn route_outcome(
    res: Result<OperationRoute, VstcError>,
    op_str: Seq<char>,
    parts: (Seq<char>, Option<Seq<char>>, Option<u16>, Seq<(Seq<char>, Seq<char>)>),
) -> bool {
    match operation_named(op_name(parts.0)) {
        Some(op) => res matches Ok(r) && route_built(r, op, parts),
        None => res matches Err(VstcError::OpConvertError { op_str: e }) && e@ == op_str,
    }
}

proof fn lemma_last_value_remove(q: Seq<(Seq<char>, Seq<char>)>, j: int, k: Seq<char>)
    requires
        0 <= j < q.len(),
        q[j].0 != k,
    ensures
        last_value(q.remove(j), k) == last_value(q, k),
    decreases q.len(),
{
    if j == q.len() - 1 {
        assert(q.remove(j) == q.drop_last());
    } else {
        assert(q.remove(j).last() == q.last());
        assert(q.remove(j).drop_last() == q.drop_last().remove(j));
        if q.last().0 != k {
            lemma_last_value_remove(q.drop_last(), j, k);
        }
    }
}

fn digit_char(d: u16) -> (r: char)
    requires
        d < 10,
    ensures
        r == digit(d as nat),
{
    if d == 0 {
        '0'
    } else if d == 1 {
        '1'
    } else if d == 2 {
        '2'
    } else if d == 3 {
        '3'
    } else if d == 4 {
        '4'
    } else if d == 5 {
        '5'
    } else if d == 6 {
        '6'
    } else if d == 7 {
        '7'
    } else if d == 8 {
        '8'
    } else {
        '9'
    }
}

/// Appends `n` in decimal.
fn push_decimal(dst: &mut String, n: u16)
    ensures
        final(dst)@ == old(dst)@ + decimal(n as nat),
    decreases n,
{
    if n >= 10 {
        push_decimal(dst, n / 10);
    }
    push_char(dst, digit_char(n % 10));
}

/// The query pairs with one pair per key, each with its last value.
fn unique_pairs(q: &Vec<(String, String)>) -> (r: Vec<(String, String)>)
    ensures
        query_map(pairs_view(r@)) == query_map(pairs_view(q@)),
        keys_unique(pairs_view(r@)),
{
    let mut r: Vec<(String, String)> = Vec::new();
    for i in 0..q.len()
        invariant
            keys_unique(pairs_view(r@)),
            forall|k: Seq<char>| #[trigger]
                last_value(pairs_view(r@), k) == last_value(pairs_view(q@).take(i as int), k),
    {
        let key = q[i].0.clone();
        let value = q[i].1.clone();
        let ghost before = pairs_view(r@);
        let mut j: usize = 0;
        let mut found = false;
        while !found && j < r.len()
            invariant
                j <= r@.len(),
                before == pairs_view(r@),
                found ==> j < r@.len() && before[j as int].0 == key@,
                !found ==> forall|t: int| 0 <= t < j ==> before[t].0 != key@,
            decreases r@.len() - j + if found { 0int } else { 1int },
        {
            if eq_str(r[j].0.as_str(), key.as_str()) {
                found = true;
            } else {
                j = j + 1;
            }
        }
        if found {
            proof {
                assert forall|k: Seq<char>| k != key@ implies last_value(before.remove(j as int), k)
                    == last_value(before, k) by {
                    lemma_last_value_remove(before, j as int, k);
                }
            }
            r.remove(j);
            assert(pairs_view(r@) == before.remove(j as int));
        }
        let ghost mid = pairs_view(r@);
        r.push((key, value));
        proof {
            let qi = pairs_view(q@).take(i + 1);
            assert(qi.drop_last() == pairs_view(q@).take(i as int));
            assert(qi.last() == (key@, value@));
            assert(pairs_view(r@).drop_last() == mid);
            assert(pairs_view(r@).last() == (key@, value@));
            assert forall|t: int| 0 <= t < mid.len() implies mid[t].0 != key@ by {
                if found {
                    if t < j {
                        assert(mid[t] == before[t]);
                    } else {
                        assert(mid[t] == before[t + 1]);
                    }
                } else {
                    assert(mid[t] == before[t]);
                }
            }
            assert forall|a: int, b: int| 0 <= a < b < pairs_view(r@).len() implies pairs_view(
                r@,
            )[a].0 != pairs_view(r@)[b].0 by {
                if b < mid.len() {
                    assert(pairs_view(r@)[a] == mid[a]);
                    assert(pairs_view(r@)[b] == mid[b]);
                    if found {
                        let a0 = if a < j { a } else { a + 1 };
                        let b0 = if b < j { b } else { b + 1 };
                        assert(mid[a] == before[a0]);
                        assert(mid[b] == before[b0]);
                    } else {
                        assert(mid[a] == before[a]);
                        assert(mid[b] == before[b]);
                    }
                } else {
                    assert(pairs_view(r@)[a] == mid[a]);
                }
            }
            assert forall|k: Seq<char>| #[trigger]
                last_value(pairs_view(r@), k) == last_value(qi, k) by {
                if k != key@ {
                    assert(last_value(mid, k) == last_value(before, k));
                }
            }
        }
    }
    proof {
        assert(pairs_view(q@).take(q@.len() as int) == pairs_view(q@));
        assert(query_map(pairs_view(r@)) =~= query_map(pairs_view(q@)));
    }
    r
}

/// The route that `op_str` names, given the parts its URL was parsed into.
pub fn route_from_url(op_str: &str, parts: &UrlParts) -> (r: Result<OperationRoute, VstcError>)
    ensures
        route_outcome(r, op_str@, parts@),
{
    let path = chars_of(parts.path.as_str());
    let name = if path.len() > 0 && path[0] == '/' {
        let n = string_of(&path, 1, path.len());
        assert(path@.drop_first() == path@.subrange(1, path@.len() as int));
        n
    } else {
        String::new()
    };
    let operation = match operation_from_name(name.as_str()) {
        Some(op) => op,
        None => {
            return Err(VstcError::OpConvertError { op_str: op_str.to_owned() });
        },
    };
    let mut remote = String::new();
    match &parts.host {
        Some(h) => {
            push_str(&mut remote, "//");
            push_str(&mut remote, h.as_str());
            match parts.port {
                Some(p) => {
                    let ghost before = remote@;
                    push_char(&mut remote, ':');
                    push_decimal(&mut remote, p);
                    assert(remote@ == before + (seq![':'] + decimal(p as nat)));
                },
                None => {},
            }
        },
        None => {},
    }
    let queries = unique_pairs(&parts.query);
    Ok(OperationRoute { operation, remote, queries })
}

/// The route that the routing string `op_str` names.
pub fn convert_to_operation(op_str: &str) -> (r: Result<OperationRoute, VstcError>)
    ensures
        url_parts(op_str@) is None ==> r matches Err(VstcError::UrlError(_)),
        url_parts(op_str@) matches Some(parts) ==> route_outcome(r, op_str@, parts),
{
    match parse_url(op_str) {
        Ok(parts) => route_from_url(op_str, &parts),
        Err(e) => Err(VstcError::UrlError(e)),
    }
}

impl OperationRoute {
    /// The value of the query parameter `key`.
    pub fn query(&self, key: &str) -> (r: Option<String>)
        ensures
            opt_view(r) == last_value(pairs_view(self.queries@), key@),
    {
        let mut i: usize = self.queries.len();
        assert(pairs_view(self.queries@).take(i as int) == pairs_view(self.queries@));
        while i > 0
            invariant
                i <= self.queries@.len(),
                last_value(pairs_view(self.queries@), key@) == last_value(
                    pairs_view(self.queries@).take(i as int),
                    key@,
                ),
            decreases i,
        {
            let ghost t = pairs_view(self.queries@).take(i as int);
            assert(t.last() == self.queries@[i - 1]@);
            assert(t.drop_last() == pairs_view(self.queries@).take(i - 1));
            if eq_str(self.queries[i - 1].0.as_str(), key) {
                return Some(self.queries[i - 1].1.clone());
            }
            i = i - 1;
        }
        None
    }
}

/// The routing string names an operation.
pub open spec fn route_ok(s: Seq<char>) -> bool {
    url_parts(s) matches Some(p) && operation_named(op_name(p.0)) is Some
}

/// The operation that an accepted routing string names.
pub open spec fn routed_operation(s: Seq<char>) -> Operation {
    let p = url_parts(s)->0;
    operation_named(op_name(p.0))->0
}

/// The error that the refused routing string `s` gives.
pub open spec fn refusal(e: VstcError, s: Seq<char>) -> bool {
    match url_parts(s) {
        None => e is UrlError,
        Some(_) => e matches VstcError::OpConvertError { op_str } && op_str@ == s,
    }
}

/// The routes of all routing strings, in order, or the error of the first
/// one refused: a configuration is checked once, as a whole.
pub fn convert_operations(ops: &Vec<String>) -> (r: Result<Vec<OperationRoute>, VstcError>)
    ensures
        r is Ok <==> forall|i: int| 0 <= i < ops@.len() ==> route_ok(#[trigger] ops@[i]@),
        r matches Ok(v) ==> v@.len() == ops@.len() && forall|i: int|
            0 <= i < ops@.len() ==> route_built(
                #[trigger] v@[i],
                routed_operation(ops@[i]@),
                url_parts(ops@[i]@)->0,
            ),
        r matches Err(e) ==> exists|i: int|
            0 <= i < ops@.len() && (forall|j: int| 0 <= j < i ==> route_ok(#[trigger] ops@[j]@))
                && !route_ok(ops@[i]@) && refusal(e, ops@[i]@),
{
    let mut routes: Vec<OperationRoute> = Vec::new();
    for i in 0..ops.len()
        invariant
            routes@.len() == i,
            forall|j: int| 0 <= j < i ==> route_ok(#[trigger] ops@[j]@),
            forall|j: int|
                0 <= j < i ==> route_built(
                    #[trigger] routes@[j],
                    routed_operation(ops@[j]@),
                    url_parts(ops@[j]@)->0,
                ),
    {
        match convert_to_operation(ops[i].as_str()) {
            Ok(route) => {
                routes.push(route);
            },
            Err(e) => {
                assert(!route_ok(ops@[i as int]@));
                return Err(e);
            },
        }
    }
    Ok(routes)
}

} // verus!
