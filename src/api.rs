//! What the platform's REST answers carry, and what is computed from them:
//! the id of a looked-up user, the listing of chatters, the game found by a
//! search, and where each cover goes in the artwork strip.
use vstd::prelude::*;

use crate::text::{chars_of, eq_str, push_char, push_str};

verus! {

/// A user lookup: the users found, each by id.
pub struct User {
    pub data: Vec<UserData>,
}

pub struct UserData {
    pub id: String,
}

/// The chatters of a channel.
pub struct Chatters {
    pub data: Vec<Chatter>,
}

pub struct Chatter {
    pub user_id: String,
    pub user_login: String,
    pub user_name: String,
}

/// A game found by a search.
pub struct SearchGame {
    pub id: i64,
    pub cover: i64,
    pub name: String,
}

/// A cover image of a game.
pub struct Artwork {
    pub game: i64,
    pub image_id: String,
}

/// The id of the first user a lookup found; `None` when it found none.
pub fn first_user_id(user: &User) -> (r: Option<String>)
    ensures
        user.data@.len() == 0 ==> r is None,
        user.data@.len() > 0 ==> (r matches Some(id) && id@ == user.data@[0].id@),
{
    if user.data.len() == 0 {
        None
    } else {
        Some(user.data[0].id.clone())
    }
}

/// The id of the first game a search found; `None` when it found none.
pub fn first_game_id(games: &Vec<SearchGame>) -> (r: Option<i64>)
    ensures
        games@.len() == 0 ==> r is None,
        games@.len() > 0 ==> r == Some(games@[0].id),
{
    if games.len() == 0 {
        None
    } else {
        Some(games[0].id)
    }
}

/// Where the cover number `index` of `count` starts in a strip `width`
/// pixels wide: each cover gets an equal share, rounded down.
pub fn cover_offset(width: u32, count: u32, index: u32) -> (r: u32)
    requires
        index < count,
    ensures
        r == (width / count) * index,
        r <= width,
{
    let share = width / count;
    proof {
        assert(share * index <= share * count) by (nonlinear_arith)
            requires
                index < count,
                share >= 0,
        ;
        assert(share * count <= width) by (nonlinear_arith)
            requires
                share == width / count,
                count > 0,
        ;
    }
    share * index
}

/// `a` comes before `b` in code point order, a prefix first.
pub open spec fn precedes(a: Seq<char>, b: Seq<char>) -> bool
    decreases a.len(),
{
    if a.len() == 0 {
        b.len() > 0
    } else if b.len() == 0 {
        false
    } else if a[0] != b[0] {
        (a[0] as u32) < (b[0] as u32)
    } else {
        precedes(a.drop_first(), b.drop_first())
    }
}

proof fn lemma_precedes_irreflexive(a: Seq<char>)
    ensures
        !precedes(a, a),
    decreases a.len(),
{
    if a.len() > 0 {
        lemma_precedes_irreflexive(a.drop_first());
    }
}

proof fn lemma_precedes_transitive(a: Seq<char>, b: Seq<char>, c: Seq<char>)
    requires
        precedes(a, b),
        precedes(b, c),
    ensures
        precedes(a, c),
    decreases a.len(),
{
    if a.len() > 0 && b.len() > 0 && c.len() > 0 && a[0] == b[0] && b[0] == c[0] {
        lemma_precedes_transitive(a.drop_first(), b.drop_first(), c.drop_first());
    }
}

/// Whether `a` comes before `b`.
fn str_precedes(a: &str, b: &str) -> (r: bool)
    ensures
        r == precedes(a@, b@),
{
    let x = chars_of(a);
    let y = chars_of(b);
    let mut i: usize = 0;
    assert(x@.skip(0) == x@ && y@.skip(0) == y@);
    while i < x.len() && i < y.len() && x[i] == y[i]
        invariant
            x@ == a@,
            y@ == b@,
            i <= x@.len(),
            i <= y@.len(),
            precedes(a@, b@) == precedes(x@.skip(i as int), y@.skip(i as int)),
        decreases x@.len() - i,
    {
        assert(x@.skip(i as int).drop_first() == x@.skip(i + 1));
        assert(y@.skip(i as int).drop_first() == y@.skip(i + 1));
        i = i + 1;
    }
    if i == x.len() {
        i < y.len()
    } else if i == y.len() {
        false
    } else {
        (x[i] as u32) < (y[i] as u32)
    }
}

/// No string of `s` comes before an earlier one.
pub open spec fn sorted(s: Seq<Seq<char>>) -> bool {
    forall|i: int, j: int| 0 <= i < j < s.len() ==> !precedes(#[trigger] s[j], #[trigger] s[i])
}

pub open spec fn strings_view(v: Seq<String>) -> Seq<Seq<char>> {
    v.map_values(|s: String| s@)
}

/// A login that is neither the channel's nor the user's.
pub open spec fn kept(channel_name: Seq<char>, username: Seq<char>) -> spec_fn(Seq<char>) -> bool {
    |l: Seq<char>| l != channel_name && l != username
}

/// The logins of the chatters, but for the channel's own and the user's.
pub open spec fn other_logins(cs: Seq<Chatter>, channel_name: Seq<char>, username: Seq<char>) -> Seq<
    Seq<char>,
> {
    cs.map_values(|c: Chatter| c.user_login@).filter(kept(channel_name, username))
}

proof fn lemma_insert_multiset(s: Seq<Seq<char>>, p: int, x: Seq<char>)
    requires
        0 <= p <= s.len(),
    ensures
        s.insert(p, x).to_multiset() =~= s.to_multiset().insert(x),
{
    let a = s.subrange(0, p);
    let b = s.subrange(p, s.len() as int);
    assert(s == a + b);
    vstd::seq_lib::lemma_multiset_commutative(a, b);
    vstd::seq_lib::lemma_multiset_commutative(a.push(x), b);
    assert(a.push(x).to_multiset() =~= a.to_multiset().insert(x)) by {
        a.to_multiset_ensures();
    }
}

/// The logins of the chatters of a channel, in code point order, but for
/// the channel's own and the user's.
pub fn chatter_logins(chatters: &Chatters, channel_name: &str, username: &str) -> (r: Vec<String>)
    ensures
        sorted(strings_view(r@)),
        strings_view(r@).to_multiset() == other_logins(
            chatters.data@,
            channel_name@,
            username@,
        ).to_multiset(),
{
    let ghost keep = kept(channel_name@, username@);
    let ghost logins = chatters.data@.map_values(|c: Chatter| c.user_login@);
    let mut r: Vec<String> = Vec::new();
    proof {
        assert(logins.take(0) == Seq::<Seq<char>>::empty());
        reveal(Seq::filter);
        assert(logins.take(0).filter(keep) == Seq::<Seq<char>>::empty());
        assert(strings_view(r@) == Seq::<Seq<char>>::empty());
    }
    for i in 0..chatters.data.len()
        invariant
            keep == kept(channel_name@, username@),
            logins == chatters.data@.map_values(|c: Chatter| c.user_login@),
            sorted(strings_view(r@)),
            strings_view(r@).to_multiset() == logins.take(i as int).filter(keep).to_multiset(),
    {
        let login = &chatters.data[i].user_login;
        proof {
            let t = logins.take(i + 1);
            assert(t.drop_last() == logins.take(i as int));
            assert(t.last() == login@);
        }
        let ghost filtered = logins.take(i as int).filter(keep);
        proof {
            let t = logins.take(i + 1);
            assert(t.drop_last() == logins.take(i as int));
            assert(t.last() == login@);
            assert(t.len() > 0);
            assert(t.drop_last().filter(keep) == filtered);
            reveal(Seq::filter);
            assert(t.filter(keep) == if keep(login@) {
                filtered.push(login@)
            } else {
                filtered
            });
            filtered.to_multiset_ensures();
        }
        if !eq_str(login.as_str(), channel_name) && !eq_str(login.as_str(), username) {
            let ghost before = strings_view(r@);
            let mut p: usize = 0;
            let mut found = false;
            while !found && p < r.len()
                invariant
                    before == strings_view(r@),
                    p <= r@.len(),
                    found ==> p < r@.len() && precedes(login@, before[p as int]),
                    forall|t: int| 0 <= t < p ==> !precedes(login@, #[trigger] before[t]),
                decreases r@.len() - p + if found { 0int } else { 1int },
            {
                if str_precedes(login.as_str(), r[p].as_str()) {
                    found = true;
                } else {
                    p = p + 1;
                }
            }
            r.insert(p, login.clone());
            proof {
                let after = strings_view(r@);
                assert(after == before.insert(p as int, login@));
                before.insert_ensures(p as int, login@);
                lemma_insert_multiset(before, p as int, login@);
                assert forall|a: int, b: int| 0 <= a < b < after.len() implies !precedes(
                    #[trigger] after[b],
                    #[trigger] after[a],
                ) by {
                    if b < p {
                        assert(after[a] == before[a] && after[b] == before[b]);
                    } else if b == p {
                        assert(after[a] == before[a]);
                        assert(after[b] == login@);
                    } else if a == p {
                        assert(after[a] == login@);
                        assert(after[b] == before[b - 1]);
                        if precedes(before[b - 1], login@) {
                            if b - 1 == p {
                                lemma_precedes_transitive(before[p as int], login@, before[p as int]);
                                lemma_precedes_irreflexive(before[p as int]);
                            } else {
                                lemma_precedes_transitive(before[b - 1], login@, before[p as int]);
                            }
                        }
                    } else if a < p {
                        assert(after[a] == before[a] && after[b] == before[b - 1]);
                    } else {
                        assert(after[a] == before[a - 1] && after[b] == before[b - 1]);
                    }
                }
            }
        }
    }
    proof {
        assert(logins.take(chatters.data@.len() as int) == logins);
    }
    r
}

/// The chatters' logins joined by commas.
pub fn join_logins(logins: &Vec<String>) -> (r: String)
    ensures
        r@ == joined(strings_view(logins@)),
{
    let mut r = String::new();
    for i in 0..logins.len()
        invariant
            r@ == joined(strings_view(logins@).take(i as int)),
    {
        proof {
            let t = strings_view(logins@).take(i + 1);
            assert(t.drop_last() == strings_view(logins@).take(i as int));
        }
        if i > 0 {
            push_char(&mut r, ',');
        }
        push_str(&mut r, logins[i].as_str());
    }
    assert(strings_view(logins@).take(logins@.len() as int) == strings_view(logins@));
    r
}

/// The strings of `s` with a comma between two neighbours.
pub open spec fn joined(s: Seq<Seq<char>>) -> Seq<char>
    decreases s.len(),
{
    if s.len() == 0 {
        Seq::empty()
    } else if s.len() == 1 {
        s[0]
    } else {
        joined(s.drop_last()) + seq![','] + s.last()
    }
}

/// Not on the allowlist.
pub open spec fn not_allowed(allowlist: Seq<Seq<char>>) -> spec_fn(Seq<char>) -> bool {
    |name: Seq<char>| !allowlist.contains(name)
}

/// The names of the known bots that are not on the allowlist, in order.
pub fn blocked_bots(bots: &Vec<String>, allowlist: &Vec<String>) -> (r: Vec<String>)
    ensures
        strings_view(r@) == strings_view(bots@).filter(not_allowed(strings_view(allowlist@))),
{
    let ghost pred = not_allowed(strings_view(allowlist@));
    let mut r: Vec<String> = Vec::new();
    proof {
        reveal(Seq::filter);
        assert(strings_view(bots@).take(0) == Seq::<Seq<char>>::empty());
        assert(strings_view(r@) == strings_view(bots@).take(0).filter(pred));
    }
    for i in 0..bots.len()
        invariant
            pred == not_allowed(strings_view(allowlist@)),
            strings_view(r@) == strings_view(bots@).take(i as int).filter(pred),
    {
        let name = bots[i].as_str();
        let mut allowed = false;
        let mut j: usize = 0;
        while !allowed && j < allowlist.len()
            invariant
                j <= allowlist@.len(),
                allowed ==> strings_view(allowlist@).contains(name@),
                !allowed ==> forall|t: int| 0 <= t < j ==> allowlist@[t]@ != name@,
            decreases allowlist@.len() - j + if allowed { 0int } else { 1int },
        {
            if eq_str(allowlist[j].as_str(), name) {
                assert(strings_view(allowlist@)[j as int] == name@);
                allowed = true;
            } else {
                j = j + 1;
            }
        }
        proof {
            if !allowed {
                assert forall|t: int| 0 <= t < strings_view(allowlist@).len() implies strings_view(
                    allowlist@,
                )[t] != name@ by {
                    assert(strings_view(allowlist@)[t] == allowlist@[t]@);
                }
            }
            let t = strings_view(bots@).take(i + 1);
            assert(t.drop_last() == strings_view(bots@).take(i as int));
            assert(t.last() == name@);
            reveal(Seq::filter);
        }
        if !allowed {
            r.push(bots[i].clone());
            assert(strings_view(r@) == strings_view(bots@).take(i as int).filter(pred).push(name@));
        }
    }
    assert(strings_view(bots@).take(bots@.len() as int) == strings_view(bots@));
    r
}

} // verus!
