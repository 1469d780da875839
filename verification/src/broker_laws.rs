//! What holds of the broker from one request to the next.
use crate::assoc;
use crate::broker;
use crate::broker::{AppModel, LobbyState, MomentView, PlayerModel};
use crate::json::JsonView;
use crate::lobbies;
use crate::lobby_filter::NumeralsView;
use crate::mesh;
use crate::routes;
use crate::text;
use vstd::prelude::*;

verus! {

/// The lobby that a body asks for.
pub open spec fn asked_lobby(body: JsonView) -> Seq<char> {
    lobbies::or_text(body.text_either("LobbyId"@, "lobbyId"@), Seq::empty())
}

/// A lobby that was made is seen as it was made.
pub proof fn made_lobby_is_seen(
    a: AppModel,
    body: JsonView,
    p: PlayerModel,
    stamp: Seq<char>,
    now: u64,
    ask: JsonView,
)
    requires
        asked_lobby(ask) == lobbies::new_lobby_id(p, stamp),
    ensures
        lobbies::get(lobbies::with_new_lobby(a, body, p, stamp, now), ask) == broker::ok_reply(
            lobbies::shown(lobbies::new_lobby(a, body, p, stamp, now)),
        ),
{
    let rest = if p.entity_id.len() == 0 {
        a.lobbies
    } else {
        lobbies::not_owned_by(a.lobbies, p.entity_id)
    };
    let l = lobbies::new_lobby(a, body, p, stamp, now);
    assoc::set_is_found(rest, l.id, l, l.id);
}

/// An account owns one lobby at most: one that it makes takes the place of those that it had.
pub proof fn one_lobby_for_an_owner(
    a: AppModel,
    body: JsonView,
    p: PlayerModel,
    stamp: Seq<char>,
    now: u64,
    i: int,
)
    requires
        p.entity_id.len() > 0,
        0 <= i < lobbies::with_new_lobby(a, body, p, stamp, now).lobbies.len(),
        lobbies::with_new_lobby(a, body, p, stamp, now).lobbies[i].1.owner_id() == p.entity_id,
    ensures
        lobbies::with_new_lobby(a, body, p, stamp, now).lobbies[i].1 == lobbies::new_lobby(
            a,
            body,
            p,
            stamp,
            now,
        ),
{
    let rest = lobbies::not_owned_by(a.lobbies, p.entity_id);
    let l = lobbies::new_lobby(a, body, p, stamp, now);
    lobbies::lemma_not_owned_by(a.lobbies, p.entity_id);
    assoc::lemma_place(rest, l.id);
    let all = assoc::with(rest, l.id, l);
    match assoc::place(rest, l.id) {
        Some(k) => {
            if i != k {
                assert(all[i] == rest[i]);
            }
        },
        None => {
            if i < rest.len() {
                assert(all[i] == rest[i]);
            }
        },
    }
}

/// Who was let into a lobby is in it, and nobody else came or went.
pub proof fn who_joins_is_in(
    l: LobbyState,
    eid: Seq<char>,
    entity: JsonView,
    data: Seq<(Seq<char>, JsonView)>,
    other: Seq<char>,
)
    requires
        lobbies::joined(l, eid, entity, data) is Some,
        !broker::has_member(l.members, eid),
    ensures
        broker::has_member(lobbies::joined(l, eid, entity, data)->0.members, eid),
        other != eid ==> (broker::has_member(
            lobbies::joined(l, eid, entity, data)->0.members,
            other,
        ) <==> broker::has_member(l.members, other)),
        lobbies::joined(l, eid, entity, data)->0.members.len() == l.members.len() + 1,
{
    broker::lemma_member_place(l.members, eid);
    let m = lobbies::member_entry(eid, entity, broker::filled(data, eid));
    let after = l.members.push(m);
    assert(m->Object_0[0].0 == "Id"@);
    assert(broker::member_id_of(m) == eid);
    assert(after[l.members.len() as int] == m);
    assert(lobbies::joined(l, eid, entity, data)->0.members == after);
    if broker::has_member(l.members, other) {
        let i = choose|i: int|
            0 <= i < l.members.len() && broker::member_id_of(#[trigger] l.members[i]) == other;
        assert(after[i] == l.members[i]);
    }
    if other != eid && broker::has_member(after, other) {
        let i = choose|i: int|
            0 <= i < after.len() && broker::member_id_of(#[trigger] after[i]) == other;
        assert(l.members[i] == after[i]);
    }
}

/// A full lobby lets nobody in who is not in it, and says so; whoever is in it may join again.
pub proof fn full_lobby_lets_nobody_in(
    l: LobbyState,
    eid: Seq<char>,
    entity: JsonView,
    data: Seq<(Seq<char>, JsonView)>,
)
    requires
        l.members.len() >= l.max_players,
    ensures
        lobbies::joined(l, eid, entity, data) is Some <==> broker::has_member(l.members, eid),
        lobbies::joined(l, eid, entity, data) is Some
            ==> lobbies::joined(l, eid, entity, data)->0.members.len() == l.members.len(),
{
    broker::lemma_member_place(l.members, eid);
}

/// A joining that is refused changes no lobby, and its status tells why: there is no such lobby,
/// or it is full.
pub proof fn refused_joining_is_told(
    a: AppModel,
    body: JsonView,
    headers: Seq<(Seq<char>, Seq<char>)>,
)
    ensures
        ({
            let (b, r) = lobbies::join(a, body, headers);
            &&& r.status == 200 || r.status == 404 || r.status == 409
            &&& r.status != 200 ==> b.lobbies == a.lobbies
        }),
{
    reveal_strlit("LobbyNotFound");
    reveal_strlit("LobbyMemberLimitExceeded");
    assert("LobbyNotFound"@.len() != "LobbyMemberLimitExceeded"@.len());
}

/// What was changed of a lobby is seen from then on.
pub proof fn update_is_seen(
    a: AppModel,
    body: JsonView,
    headers: Seq<(Seq<char>, Seq<char>)>,
    ask: JsonView,
)
    requires
        a.wf(),
        assoc::lookup(a.lobbies, asked_lobby(body)) is Some,
        asked_lobby(ask) == asked_lobby(body),
    ensures
        lobbies::get(lobbies::update(a, body, headers), ask) == broker::ok_reply(
            lobbies::shown(
                lobbies::updated(
                    assoc::lookup(a.lobbies, asked_lobby(body))->0,
                    body,
                    a.requester(body, headers),
                ),
            ),
        ),
{
    let id = asked_lobby(body);
    assoc::lemma_place(a.lobbies, id);
    let i = assoc::place(a.lobbies, id)->0;
    let b = lobbies::update(a, body, headers);
    assert forall|j: int| 0 <= j < i implies (#[trigger] b.lobbies[j]).0 != id by {
        assert(a.lobbies[j].0 != id);
    }
    assoc::lemma_place_is(b.lobbies, id, i);
}

/// A lobby that the last one leaves is gone.
pub proof fn empty_lobby_is_gone(
    a: AppModel,
    body: JsonView,
    headers: Seq<(Seq<char>, Seq<char>)>,
    ask: JsonView,
)
    requires
        a.wf(),
        asked_lobby(ask) == asked_lobby(body),
        assoc::lookup(a.lobbies, asked_lobby(body)) is Some,
        lobbies::left(
            assoc::lookup(a.lobbies, asked_lobby(body))->0,
            a.requester(body, headers),
        ) is None,
    ensures
        lobbies::get(lobbies::leave(a, body, headers), ask).status == 404,
{
    let id = asked_lobby(body);
    assoc::lemma_place(a.lobbies, id);
    assoc::removed_is_gone(a.lobbies, id, id);
    reveal_strlit("LobbyNotFound");
}

/// A prefix under which the service is also reached.
pub open spec fn is_prefix(prefix: Seq<char>) -> bool {
    prefix == "/v1/api/index.php"@ || prefix == "/v1/api"@ || prefix == "/index.php"@ || prefix
        == "/api"@
}

/// A path that names something and starts with none of the prefixes.
pub open spec fn is_plain(rest: Seq<char>) -> bool {
    &&& rest.len() > 1
    &&& rest[0] == '/'
    &&& rest[1] != '/'
    &&& rest[1] != '?'
    &&& !text::begins(rest, "/v1/api/"@)
    &&& !text::begins(rest, "/index.php/"@)
    &&& !text::begins(rest, "/api/"@)
}

proof fn lemma_plain(rest: Seq<char>)
    requires
        is_plain(rest),
    ensures
        routes::stripped(rest) == mesh::path_part(rest),
{
    reveal_strlit("/v1/api/index.php/");
    reveal_strlit("/v1/api/");
    lemma_find_bound(rest, '?');
    let q = text::find(rest, '?');
    assert("/v1/api/index.php/"@.take(8) =~= "/v1/api/"@);
    lemma_begins_part(rest, q, "/v1/api/index.php/"@, "/v1/api/"@);
    lemma_begins_part(rest, q, "/v1/api/"@, "/v1/api/"@);
    lemma_begins_part(rest, q, "/index.php/"@, "/index.php/"@);
    lemma_begins_part(rest, q, "/api/"@, "/api/"@);
}

/// Which of the prefixes a path starts with.
proof fn lemma_prefix_of(prefix: Seq<char>, r: Seq<char>)
    requires
        is_prefix(prefix),
        r.len() > 1,
        r[0] == '/',
        !text::begins(r, "/index.php/"@),
    ensures
        ({
            let p = prefix + r;
            if prefix == "/v1/api/index.php"@ {
                text::begins(p, "/v1/api/index.php/"@) && prefix.len() == 17
            } else if prefix == "/v1/api"@ {
                &&& !text::begins(p, "/v1/api/index.php/"@)
                &&& text::begins(p, "/v1/api/"@)
                &&& prefix.len() == 7
            } else if prefix == "/index.php"@ {
                &&& !text::begins(p, "/v1/api/index.php/"@)
                &&& !text::begins(p, "/v1/api/"@)
                &&& text::begins(p, "/index.php/"@)
                &&& prefix.len() == 10
            } else {
                &&& !text::begins(p, "/v1/api/index.php/"@)
                &&& !text::begins(p, "/v1/api/"@)
                &&& !text::begins(p, "/index.php/"@)
                &&& text::begins(p, "/api/"@)
                &&& prefix.len() == 4
            }
        }),
        !prefix.contains('?'),
{
    reveal_strlit("/v1/api/index.php");
    reveal_strlit("/v1/api");
    reveal_strlit("/index.php");
    reveal_strlit("/api");
    reveal_strlit("/v1/api/index.php/");
    reveal_strlit("/v1/api/");
    reveal_strlit("/index.php/");
    reveal_strlit("/api/");
    let p = prefix + r;
    if prefix == "/v1/api/index.php"@ {
        assert(p.take(18) =~= "/v1/api/index.php/"@);
    } else if prefix == "/v1/api"@ {
        assert(p.take(8) =~= "/v1/api/"@);
        if text::begins(p, "/v1/api/index.php/"@) {
            assert(p.take(18).skip(7) =~= r.take(11));
            assert("/v1/api/index.php/"@.skip(7) =~= "/index.php/"@);
        }
    } else {
        if text::begins(p, "/v1/api/index.php/"@) {
            assert(p.take(18)[1] == p[1]);
        }
        if text::begins(p, "/v1/api/"@) {
            assert(p.take(8)[1] == p[1]);
        }
        if prefix == "/index.php"@ {
            assert(p.take(11) =~= "/index.php/"@);
        } else {
            assert(p.take(5) =~= "/api/"@);
            if text::begins(p, "/index.php/"@) {
                assert(p.take(11)[1] == p[1]);
            }
        }
    }
}

/// A path below one of the prefixes under which the service is also reached leads where the path
/// without the prefix leads.
pub proof fn prefixes_lead_nowhere_else(
    a: AppModel,
    method: Seq<char>,
    prefix: Seq<char>,
    rest: Seq<char>,
    headers: Seq<(Seq<char>, Seq<char>)>,
    body: JsonView,
    stamp: Seq<char>,
    now: MomentView,
    n: NumeralsView,
)
    requires
        is_prefix(prefix),
        is_plain(rest),
    ensures
        routes::serve(a, method, prefix + rest, headers, body, stamp, now, n) == routes::serve(
            a,
            method,
            rest,
            headers,
            body,
            stamp,
            now,
            n,
        ),
{
    lemma_same_way(prefix, rest);
}

proof fn lemma_same_way(prefix: Seq<char>, rest: Seq<char>)
    requires
        is_prefix(prefix),
        is_plain(rest),
    ensures
        routes::stripped(prefix + rest) == routes::stripped(rest),
        routes::mesh_path(prefix + rest) == routes::mesh_path(rest),
{
    let full = prefix + rest;
    let k = prefix.len() as int;
    lemma_find_bound(rest, '?');
    let q = text::find(rest, '?');
    let r = mesh::path_part(rest);
    lemma_begins_part(rest, q, "/index.php/"@, "/index.php/"@);
    assert(r.len() > 1 && r[0] == '/' && r[1] == rest[1]);
    lemma_prefix_of(prefix, r);
    lemma_find_behind(prefix, rest, '?');
    let p = mesh::path_part(full);
    assert(p =~= prefix + r);
    assert(mesh::query_part(full) =~= mesh::query_part(rest));
    let tail = p.skip(k + 1);
    assert(tail =~= r.skip(1));
    let slash = |c: char| c == '/';
    text::lemma_span(tail, slash, 0);
    assert(mesh::bare_path(tail) =~= tail);
    reveal_strlit("/");
    assert("/"@ + tail =~= r);
    lemma_plain(rest);
}

/// A text that does not begin in one way has no part from its start that begins in a longer way.
proof fn lemma_begins_part(s: Seq<char>, k: int, long: Seq<char>, short: Seq<char>)
    requires
        0 <= k <= s.len(),
        long == short || text::begins(long, short),
        !text::begins(s, short),
    ensures
        !text::begins(s.take(k), long),
{
    assert(long.take(long.len() as int) =~= long);
    if text::begins(s.take(k), long) {
        assert(s.take(k).take(long.len() as int).take(short.len() as int) =~= s.take(
            short.len() as int,
        ));
    }
}

/// A character that does not stand in a prefix stands as far behind it as in the rest.
proof fn lemma_find_behind(prefix: Seq<char>, rest: Seq<char>, c: char)
    requires
        !prefix.contains(c),
    ensures
        text::find(prefix + rest, c) == prefix.len() + text::find(rest, c),
    decreases prefix.len(),
{
    let all = prefix + rest;
    if prefix.len() == 0 {
        assert(all =~= rest);
    } else {
        assert(prefix.contains(prefix[0]));
        assert(all.drop_first() =~= prefix.drop_first() + rest);
        assert(!prefix.drop_first().contains(c)) by {
            if prefix.drop_first().contains(c) {
                let i = choose|i: int| 0 <= i < prefix.drop_first().len() && prefix.drop_first()[i] == c;
                assert(prefix[i + 1] == c);
            }
        }
        lemma_find_behind(prefix.drop_first(), rest, c);
    }
}

proof fn lemma_find_bound(s: Seq<char>, c: char)
    ensures
        0 <= text::find(s, c) <= s.len(),
        forall|j: int| 0 <= j < text::find(s, c) ==> s[j] != c,
        text::find(s, c) < s.len() ==> s[text::find(s, c)] == c,
    decreases s.len(),
{
    if s.len() > 0 && s[0] != c {
        let t = s.drop_first();
        lemma_find_bound(t, c);
        assert forall|j: int| 0 <= j < text::find(s, c) implies s[j] != c by {
            if j > 0 {
                assert(t[j - 1] != c);
            }
        }
    }
}

}
