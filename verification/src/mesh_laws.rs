//! What holds of meshes, accounts and answers from one request to the next.
use crate::assoc;
use crate::broker;
use crate::broker::{AppModel, LobbyState, MomentView, PartyMemberModel, PlayerModel};
use crate::json;
use crate::json::JsonView;
use crate::lobbies;
use crate::lobby_filter::NumeralsView;
use crate::mesh;
use crate::routes;
use crate::search_laws;
use crate::text;
use vstd::prelude::*;

verus! {

// Meshes

/// Half a minute, in the unit of the broker's clock.
pub open spec fn half_a_minute() -> int {
    30int * 0x1_0000_0000int
}

/// Of a mesh those stay who were heard of in the last half minute, as they are, and nobody else.
pub proof fn only_the_silent_are_forgotten(
    net: Seq<(Seq<char>, PartyMemberModel)>,
    now: u64,
    eid: Seq<char>,
)
    requires
        assoc::distinct(net),
    ensures
        ({
            let known = assoc::lookup(net, eid);
            let kept = assoc::lookup(mesh::live(net, now), eid);
            &&& known is Some && now - known->0.seen.ticks <= half_a_minute() ==> kept == known
            &&& known is Some && now - known->0.seen.ticks > half_a_minute() ==> kept is None
            &&& known is None ==> kept is None
            &&& assoc::distinct(mesh::live(net, now))
        }),
    decreases net.len(),
{
    let kept = mesh::live(net, now);
    assoc::lemma_place(net, eid);
    assoc::lemma_place(kept, eid);
    if net.len() > 0 {
        let t = net.drop_first();
        let rest = mesh::live(t, now);
        assert(assoc::distinct(t)) by {
            assert forall|i: int, j: int| 0 <= i < j < t.len() implies (#[trigger] t[i]).0 != (
            #[trigger] t[j]).0 by {
                assert(net[i + 1].0 != net[j + 1].0);
            }
        }
        only_the_silent_are_forgotten(t, now, eid);
        only_the_silent_are_forgotten(t, now, net[0].0);
        assoc::lemma_place(t, eid);
        assoc::lemma_place(t, net[0].0);
        assoc::lemma_place(rest, eid);
        assoc::lemma_place(rest, net[0].0);
        if let Some(k) = assoc::place(t, net[0].0) {
            assert(net[k + 1].0 == net[0].0);
        }
        if mesh::is_live(net[0].1, now) {
            assert(kept[0] == net[0]);
            assert(kept.drop_first() =~= rest);
            assert forall|i: int, j: int| 0 <= i < j < kept.len() implies (#[trigger] kept[i]).0 != (
            #[trigger] kept[j]).0 by {
                assert(kept[j] == rest[j - 1]);
                if i > 0 {
                    assert(kept[i] == rest[i - 1]);
                } else {
                    assert(rest[j - 1].0 != net[0].0);
                }
            }
        }
    }
}

/// A member with a given address is registered.
pub open spec fn is_registered(
    a: AppModel,
    nid: Seq<char>,
    eid: Seq<char>,
    ip: Seq<char>,
    port: int,
) -> bool {
    match assoc::lookup(a.party, nid) {
        Some(net) => match assoc::lookup(net, eid) {
            Some(m) => m.ip == ip && m.udp_port == port,
            None => false,
        },
        None => false,
    }
}

/// A member joins a mesh by name.
pub open spec fn joins(body: JsonView, nid: Seq<char>, eid: Seq<char>) -> bool {
    &&& body.text_field("network_id"@) == Some(nid)
    &&& body.text_field("entity_id"@) == Some(eid)
    &&& nid.len() > 0
}

/// Who joins a mesh in which there is room is registered there from then on, with the address and
/// the port that it says; where it gives an address that only means its own machine, it is
/// registered with the one that its connection comes from. The others who are still heard of stay.
pub proof fn who_joins_a_mesh_is_registered(
    a: AppModel,
    body: JsonView,
    qs: Seq<char>,
    headers: Seq<(Seq<char>, Seq<char>)>,
    stamp: Seq<char>,
    now: MomentView,
    nid: Seq<char>,
    eid: Seq<char>,
    ip: Seq<char>,
    port: int,
    other: Seq<char>,
)
    requires
        a.wf(),
        joins(body, nid, eid),
        body.integer_field("udp_port"@) == Some(port),
        0 <= port < 0x1_0000,
        mesh::live(mesh::mesh_of(a, nid), now.ticks).len() < a.mesh_cap(),
        mesh::sequence_of(body, qs) == 0 || assoc::lookup(mesh::mesh_of(a, nid), eid) is None,
        ({
            ||| body.text_field("ip"@) == Some(ip) && !mesh::is_loopback(ip)
            ||| body.text_field("ip"@) is Some && mesh::is_loopback(body.text_field("ip"@)->0)
                && assoc::lookup(headers, "x-peer-ip"@) == Some(ip) && !mesh::is_loopback(ip)
        }),
    ensures
        ({
            let (b, r) = mesh::join(a, body, qs, headers, stamp, now);
            let was = assoc::lookup(mesh::mesh_of(a, nid), other);
            &&& r.status == 200
            &&& is_registered(b, nid, eid, ip, port)
            &&& assoc::lookup(mesh::mesh_of(b, nid), eid)->0.seen == now
            &&& other != eid && was is Some && now.ticks - was->0.seen.ticks <= half_a_minute()
                ==> assoc::lookup(mesh::mesh_of(b, nid), other) == was
            &&& other != eid && was is None ==> assoc::lookup(mesh::mesh_of(b, nid), other) is None
        }),
{
    lemma_mesh_distinct(a, nid);
    let net = mesh::live(mesh::mesh_of(a, nid), now.ticks);
    only_the_silent_are_forgotten(mesh::mesh_of(a, nid), now.ticks, eid);
    only_the_silent_are_forgotten(mesh::mesh_of(a, nid), now.ticks, other);
    let m = PartyMemberModel {
        entity_id: eid,
        ip: mesh::peer_address(body, headers),
        udp_port: mesh::peer_port(body),
        seen: now,
        member_seq: mesh::sequence_of(body, qs),
    };
    let net2 = mesh::registered(net, m, a.mesh_cap())->0;
    assoc::set_is_found(a.party, nid, net2, nid);
    match assoc::lookup(net, eid) {
        None => {
            assoc::set_is_found(net, eid, m, other);
        },
        Some(known) => {
            let n = PartyMemberModel {
                entity_id: known.entity_id,
                member_seq: if known.member_seq > m.member_seq {
                    known.member_seq
                } else {
                    m.member_seq
                },
                ..m
            };
            assoc::set_is_found(net, eid, n, other);
        },
    }
}

proof fn lemma_mesh_distinct(a: AppModel, nid: Seq<char>)
    requires
        a.wf(),
    ensures
        assoc::distinct(mesh::mesh_of(a, nid)),
{
    assoc::lemma_place(a.party, nid);
    if let Some(i) = assoc::place(a.party, nid) {
        assert(assoc::distinct(a.party[i].1));
    }
}

/// A mesh in which there is no room is answered with 409, and nobody is added to it.
pub proof fn full_mesh_lets_nobody_in(
    a: AppModel,
    body: JsonView,
    qs: Seq<char>,
    headers: Seq<(Seq<char>, Seq<char>)>,
    stamp: Seq<char>,
    now: MomentView,
    nid: Seq<char>,
    eid: Seq<char>,
)
    requires
        a.wf(),
        joins(body, nid, eid),
        mesh::live(mesh::mesh_of(a, nid), now.ticks).len() >= a.mesh_cap(),
        assoc::lookup(mesh::mesh_of(a, nid), eid) is None,
    ensures
        ({
            let (b, r) = mesh::join(a, body, qs, headers, stamp, now);
            &&& r.status == 409
            &&& assoc::lookup(mesh::mesh_of(b, nid), eid) is None
        }),
{
    lemma_mesh_distinct(a, nid);
    let net = mesh::live(mesh::mesh_of(a, nid), now.ticks);
    only_the_silent_are_forgotten(mesh::mesh_of(a, nid), now.ticks, eid);
    assoc::set_is_found(a.party, nid, net, nid);
    reveal_strlit("PartyMemberLimitExceeded");
    reveal_strlit("LobbyNotFound");
    assert("PartyMemberLimitExceeded"@.len() != "LobbyNotFound"@.len());
}

/// Who leaves a mesh is not registered there any more, unless it registered again since; the
/// others stay, and so does every other mesh.
pub proof fn who_leaves_a_mesh_is_gone(
    a: AppModel,
    body: JsonView,
    qs: Seq<char>,
    nid: Seq<char>,
    eid: Seq<char>,
    other: Seq<char>,
    elsewhere: Seq<char>,
)
    requires
        a.wf(),
        body.text_field("network_id"@) == Some(nid),
        body.text_field("entity_id"@) == Some(eid),
        assoc::lookup(a.party, nid) is Some,
    ensures
        ({
            let b = mesh::leave(a, body, qs);
            let was = assoc::lookup(mesh::mesh_of(a, nid), eid);
            let count = mesh::sequence_of(body, qs);
            let after = mesh::mesh_of(b, nid);
            &&& was is Some && count != 0 && was->0.member_seq > count ==> assoc::lookup(after, eid)
                == was
            &&& was is None || count == 0 || was->0.member_seq <= count ==> assoc::lookup(
                after,
                eid,
            ) is None
            &&& other != eid ==> assoc::lookup(after, other) == assoc::lookup(
                mesh::mesh_of(a, nid),
                other,
            )
            &&& elsewhere != nid ==> mesh::mesh_of(b, elsewhere) == mesh::mesh_of(a, elsewhere)
        }),
{
    lemma_mesh_distinct(a, nid);
    let net = mesh::mesh_of(a, nid);
    let after = mesh::left(net, eid, mesh::sequence_of(body, qs));
    assoc::removed_is_gone(net, eid, other);
    assoc::set_is_found(a.party, nid, after, nid);
    assoc::set_is_found(a.party, nid, after, elsewhere);
}

/// A request for the peers of a mesh keeps the one who asks among them and drops only those who
/// were not heard of for half a minute; no other mesh changes.
pub proof fn asking_for_peers_drops_only_the_silent(
    a: AppModel,
    body: JsonView,
    qs: Seq<char>,
    now: MomentView,
    nid: Seq<char>,
    eid: Seq<char>,
    other: Seq<char>,
    elsewhere: Seq<char>,
)
    requires
        a.wf(),
        body.text_field("network_id"@) == Some(nid),
        body.text_field("entity_id"@) == Some(eid),
        eid.len() > 0,
        assoc::lookup(a.party, nid) is Some,
    ensures
        ({
            let (b, r) = mesh::peers(a, body, qs, now);
            let before = mesh::mesh_of(a, nid);
            let after = mesh::mesh_of(b, nid);
            let was = assoc::lookup(before, other);
            &&& r == broker::ok_reply(mesh::mesh_view(nid, after))
            &&& assoc::lookup(before, eid) matches Some(m) ==> assoc::lookup(after, eid) == Some(
                PartyMemberModel { seen: now, ..m },
            )
            &&& other != eid && was is Some && now.ticks - was->0.seen.ticks <= half_a_minute()
                ==> assoc::lookup(after, other) == was
            &&& other != eid && (was is None || now.ticks - was->0.seen.ticks > half_a_minute())
                ==> assoc::lookup(after, other) is None
            &&& elsewhere != nid ==> mesh::mesh_of(b, elsewhere) == mesh::mesh_of(a, elsewhere)
        }),
{
    lemma_mesh_distinct(a, nid);
    let net = mesh::mesh_of(a, nid);
    if let Some(m) = assoc::lookup(net, eid) {
        assoc::set_is_found(net, eid, PartyMemberModel { seen: now, ..m }, other);
    }
    let fresh = mesh::refreshed(net, eid, now);
    only_the_silent_are_forgotten(fresh, now.ticks, eid);
    only_the_silent_are_forgotten(fresh, now.ticks, other);
    let after = mesh::live(fresh, now.ticks);
    assoc::set_is_found(a.party, nid, after, nid);
    assoc::set_is_found(a.party, nid, after, elsewhere);
}

/// Peers are told of every member of a mesh, in order, each under its name, with its address, its
/// port and its count of registrations.
pub proof fn peers_are_told(
    nid: Seq<char>,
    net: Seq<(Seq<char>, PartyMemberModel)>,
    i: int,
)
    requires
        0 <= i < net.len(),
    ensures
        ({
            let d = mesh::mesh_view(nid, net);
            &&& d.text_field("network_id"@) == Some(nid)
            &&& d.field("members"@) matches Some(JsonView::Array(v))
            &&& v.len() == net.len()
            &&& v[i].text_field("entity_id"@) == Some(net[i].1.entity_id)
            &&& v[i].text_field("ip"@) == Some(net[i].1.ip)
            &&& v[i].field("udp_port"@) == Some(json::int_view(net[i].1.udp_port as int))
            &&& v[i].field("seen"@) == Some(JsonView::Number(net[i].1.seen.text))
            &&& v[i].field("member_seq"@) == Some(json::int_view(net[i].1.member_seq as int))
        }),
{
    reveal_strlit("network_id");
    reveal_strlit("members");
    assert("network_id"@.len() != "members"@.len());
    reveal_strlit("entity_id");
    reveal_strlit("ip");
    reveal_strlit("udp_port");
    reveal_strlit("seen");
    reveal_strlit("member_seq");
    assert("entity_id"@.len() == 9 && "ip"@.len() == 2 && "udp_port"@.len() == 8 && "seen"@.len()
        == 4 && "member_seq"@.len() == 10);
    reveal_with_fuel(assoc::place, 6);
}

/// The count of registrations is the one that the body gives, else the one in the query.
pub proof fn count_is_taken_from_the_request(body: JsonView, qs: Seq<char>, n: int)
    requires
        body.integer_field("member_seq"@) == Some(n),
        0 < n <= u64::MAX,
    ensures
        mesh::sequence_of(body, qs) == n,
{
}

proof fn lemma_find_in(a: Seq<char>, b: Seq<char>, c: char)
    requires
        !a.contains(c),
    ensures
        text::find(a + seq![c] + b, c) == a.len(),
        text::find(a, c) == a.len(),
{
    let s = a + seq![c] + b;
    assert forall|j: int| 0 <= j < a.len() implies s[j] != c by {
        assert(a.contains(a[j]));
    }
    assert forall|j: int| 0 <= j < a.len() implies a[j] != c by {
        assert(a.contains(a[j]));
    }
    assert(s[a.len() as int] == c);
    text::lemma_find(s, c, a.len() as int);
    text::lemma_find(a, c, a.len() as int);
}

/// What a query gives under a name is read from it, whatever stands before and behind it.
pub proof fn query_is_read(
    before: Seq<char>,
    prefix: Seq<char>,
    v: Seq<char>,
    after: Seq<char>,
)
    requires
        !(prefix + v).contains('&'),
        !before.contains('&'),
        !text::begins(before, prefix),
    ensures
        mesh::query_value(prefix + v, prefix) == Some(v),
        mesh::query_value(prefix + v + seq!['&'] + after, prefix) == Some(v),
        mesh::query_value(before + seq!['&'] + (prefix + v + seq!['&'] + after), prefix) == Some(v),
        mesh::query_value(before, prefix) is None,
{
    let p = prefix + v;
    assert(p.take(prefix.len() as int) =~= prefix);
    assert(p.skip(prefix.len() as int) =~= v);
    lemma_find_in(p, after, '&');
    let s = p + seq!['&'] + after;
    assert(s.take(p.len() as int) =~= p);
    lemma_find_in(before, s, '&');
    let w = before + seq!['&'] + s;
    assert(w.take(before.len() as int) =~= before);
    assert(w.skip(before.len() + 1int) =~= s);
    assert(mesh::query_value(s, prefix) == Some(v));
}

// Accounts

/// Whoever shows the token or the ticket of an account that logged in is that account, whatever
/// else the request says.
pub proof fn login_is_remembered(
    a: AppModel,
    p: PlayerModel,
    body: JsonView,
    headers: Seq<(Seq<char>, Seq<char>)>,
)
    requires
        ({
            ||| assoc::lookup(headers, "x-entitytoken"@) == Some(p.entity_token)
            ||| assoc::lookup(headers, "x-entitytoken"@) is None && assoc::lookup(
                headers,
                "x-authorization"@,
            ) == Some(p.session_ticket)
        }),
    ensures
        a.with_player(p).requester(body, headers) == Some(p.entity_id),
        a.with_player(p).known_player(body, headers) matches Some(q) && q.entity_id == p.entity_id,
{
    let one = assoc::with(a.sessions, p.entity_token, p);
    let two = assoc::with(one, p.session_ticket, p);
    assoc::set_is_found(a.sessions, p.entity_token, p, p.session_ticket);
    assoc::set_is_found(one, p.session_ticket, p, p.entity_token);
    assoc::lemma_place(two, p.session_ticket);
    lemma_session_player(two, p.entity_id, assoc::place(two, p.session_ticket)->0);
}

proof fn lemma_session_player(sessions: Seq<(Seq<char>, PlayerModel)>, eid: Seq<char>, i: int)
    requires
        0 <= i < sessions.len(),
        sessions[i].1.entity_id == eid,
    ensures
        broker::session_player(sessions, eid) matches Some(q) && q.entity_id == eid,
    decreases sessions.len(),
{
    if sessions[0].1.entity_id != eid {
        lemma_session_player(sessions.drop_first(), eid, i - 1);
    }
}

/// A request without a token that is known comes from whom its body names: first as the entity,
/// then as a member, an owner or a searcher.
pub proof fn body_names_who_asks(
    a: AppModel,
    body: JsonView,
    headers: Seq<(Seq<char>, Seq<char>)>,
    eid: Seq<char>,
)
    requires
        headers.len() == 0,
    ensures
        body.text_field("EntityId"@) == Some(eid) ==> a.requester(body, headers) == Some(eid),
        body.text_either("EntityId"@, "entityId"@) is None && broker::entity_field(
            body,
            "MemberEntity"@,
        ) == Some(eid) ==> a.requester(body, headers) == Some(eid),
        body.text_either("EntityId"@, "entityId"@) is None && broker::entity_field(
            body,
            "MemberEntity"@,
        ) is None && broker::entity_field(body, "Owner"@) == Some(eid) ==> a.requester(body, headers)
            == Some(eid),
{
}

proof fn lemma_login_names()
    ensures
        "SessionTicket"@.len() == 13,
        "PlayFabId"@.len() == 9,
        "NewlyCreated"@.len() == 12,
        "SettingsForUser"@.len() == 15,
        "LastLoginTime"@.len() == 13,
        "EntityToken"@.len() == 11,
        "SessionTicket"@ != "LastLoginTime"@,
{
    reveal_strlit("SessionTicket");
    reveal_strlit("PlayFabId");
    reveal_strlit("NewlyCreated");
    reveal_strlit("SettingsForUser");
    reveal_strlit("LastLoginTime");
    reveal_strlit("EntityToken");
    assert("SessionTicket"@[0] != "LastLoginTime"@[0]);
}

/// A login is answered with the ticket and the token by which the broker knows the account from
/// then on, and with the entity that it is.
pub proof fn login_is_answered(
    a: AppModel,
    path: Seq<char>,
    body: JsonView,
    headers: Seq<(Seq<char>, Seq<char>)>,
    stamp: Seq<char>,
    now: u64,
    n: NumeralsView,
)
    requires
        routes::route_of(path) is Login,
    ensures
        ({
            let (b, r) = routes::serve_playfab(a, path, body, headers, stamp, now, n);
            let d = r->0.body.field("data"@)->0;
            let ticket = d.text_field("SessionTicket"@);
            let token = d.field("EntityToken"@)->0.text_field("EntityToken"@);
            let entity = d.field("EntityToken"@)->0.field("Entity"@)->0.text_field("Id"@);
            &&& r is Some && r->0.status == 200
            &&& r->0.body.field("data"@) is Some && d.field("EntityToken"@) is Some
            &&& ticket is Some && token is Some && entity is Some
            &&& assoc::lookup(b.sessions, ticket->0) matches Some(q) && Some(q.entity_id) == entity
            &&& assoc::lookup(b.sessions, token->0) matches Some(q) && Some(q.entity_id) == entity
            &&& b.lobbies == a.lobbies && b.party == a.party
        }),
{
    let ticket = lobbies::or_text(
        body.text_either("SteamTicket"@, "steamTicket"@),
        Seq::empty(),
    );
    let p = broker::player_of(ticket);
    lemma_ok_reply(broker::login_view(p));
    lemma_login_view(p);
    lemma_token_view(p);
    let one = assoc::with(a.sessions, p.entity_token, p);
    assoc::set_is_found(a.sessions, p.entity_token, p, p.session_ticket);
    assoc::set_is_found(one, p.session_ticket, p, p.entity_token);
}

proof fn lemma_login_view(p: PlayerModel)
    ensures
        broker::login_view(p).text_field("SessionTicket"@) == Some(p.session_ticket),
        broker::login_view(p).field("EntityToken"@) == Some(broker::token_view(p)),
{
    lemma_login_names();
    let o = broker::login_view(p)->Object_0;
    assert(o[0].0 == "SessionTicket"@ && o[1].0 == "PlayFabId"@ && o[2].0 == "NewlyCreated"@
        && o[3].0 == "SettingsForUser"@ && o[4].0 == "LastLoginTime"@ && o[5].0 == "EntityToken"@);
    assoc::lemma_place_is(o, "SessionTicket"@, 0);
    assert forall|j: int| 0 <= j < 5 implies (#[trigger] o[j]).0 != "EntityToken"@ by {
        assert(j == 0 || j == 1 || j == 2 || j == 3 || j == 4);
    }
    assoc::lemma_place_is(o, "EntityToken"@, 5);
}

proof fn lemma_token_view(p: PlayerModel)
    ensures
        broker::token_view(p).text_field("EntityToken"@) == Some(p.entity_token),
        broker::token_view(p).field("Entity"@) is Some,
        broker::token_view(p).field("Entity"@)->0.text_field("Id"@) == Some(p.entity_id),
{
    reveal_strlit("EntityToken");
    reveal_strlit("TokenExpiration");
    reveal_strlit("Entity");
    assert("EntityToken"@.len() == 11 && "TokenExpiration"@.len() == 15 && "Entity"@.len() == 6);
    reveal_with_fuel(assoc::place, 4);
}

proof fn lemma_ok_reply(d: JsonView)
    ensures
        broker::ok_reply(d).status == 200,
        broker::ok_reply(d).body.field("data"@) == Some(d),
{
    reveal_strlit("code");
    reveal_strlit("status");
    reveal_strlit("data");
    let o = broker::ok_reply(d).body->Object_0;
    assert("code"@[0] != "data"@[0]);
    assert("status"@.len() != "data"@.len());
    assert(o[0].0 == "code"@ && o[1].0 == "status"@ && o[2].0 == "data"@);
    assoc::lemma_place_is(o, "data"@, 2);
}

// Lobbies through the service

/// A lobby that was made is found under the name that the answer gives and entered by the
/// connection string that it gives, where no other lobby has either, and is for as many players as
/// the answer says.
pub proof fn made_lobby_is_as_answered(
    a: AppModel,
    path: Seq<char>,
    body: JsonView,
    headers: Seq<(Seq<char>, Seq<char>)>,
    stamp: Seq<char>,
    now: u64,
    n: NumeralsView,
)
    requires
        routes::route_of(path) is Create,
    ensures
        ({
            let (b, r) = routes::serve_playfab(a, path, body, headers, stamp, now, n);
            let d = r->0.body.field("data"@)->0;
            let id = d.text_field("LobbyId"@);
            let found = assoc::lookup(b.lobbies, id->0);
            &&& r is Some && r->0.status == 200 && r->0.body.field("data"@) is Some
            &&& id is Some
            &&& found is Some
            &&& found->0.id == id->0
            &&& d.text_field("ConnectionString"@) == Some(found->0.connection)
            &&& d.field("MaxPlayers"@) == Some(json::int_view(found->0.max_players as int))
            &&& search_laws::connections_differ(b.lobbies) ==> lobbies::connection_place(
                b.lobbies,
                found->0.connection,
            ) == assoc::place(b.lobbies, id->0)
        }),
{
    let (c, p) = a.acting(body, headers, "anonymous"@);
    let l = lobbies::new_lobby(c, body, p, stamp, now);
    lemma_ok_reply(routes::made_view(l));
    lemma_made_view(l);
    let rest = if p.entity_id.len() == 0 {
        c.lobbies
    } else {
        lobbies::not_owned_by(c.lobbies, p.entity_id)
    };
    let all = assoc::with(rest, l.id, l);
    assoc::set_is_found(rest, l.id, l, l.id);
    assoc::lemma_place(all, l.id);
    lobbies::lemma_connection_place(all, l.connection);
    let i = assoc::place(all, l.id)->0;
    assert(all[i].1 == l);
}

proof fn lemma_made_view(l: LobbyState)
    ensures
        routes::made_view(l).text_field("LobbyId"@) == Some(l.id),
        routes::made_view(l).text_field("ConnectionString"@) == Some(l.connection),
        routes::made_view(l).field("MaxPlayers"@) == Some(json::int_view(l.max_players as int)),
{
    reveal_strlit("LobbyId");
    reveal_strlit("ConnectionString");
    reveal_strlit("MaxPlayers");
    assert("LobbyId"@.len() == 7 && "ConnectionString"@.len() == 16 && "MaxPlayers"@.len() == 10);
    reveal_with_fuel(assoc::place, 4);
}

/// Looking, searching and asking for something that needs no answer change nothing.
pub proof fn reading_changes_nothing(
    a: AppModel,
    path: Seq<char>,
    body: JsonView,
    headers: Seq<(Seq<char>, Seq<char>)>,
    stamp: Seq<char>,
    now: u64,
    n: NumeralsView,
)
    requires
        ({
            let r = routes::route_of(path);
            r is Find || r is Get || r is Accept || r is Elsewhere
        }),
    ensures
        routes::serve_playfab(a, path, body, headers, stamp, now, n).0 == a,
{
}

// Connection strings

/// Every lobby is entered by a string made of the title and the name of the lobby.
pub open spec fn are_named(a: AppModel) -> bool {
    forall|i: int|
        0 <= i < a.lobbies.len() ==> (#[trigger] a.lobbies[i]).1.connection == "lan."@ + a.title_id
            + "."@ + a.lobbies[i].1.id
}

/// A broker whose lobbies are entered by their names has no two that are entered alike.
pub proof fn named_connections_differ(a: AppModel)
    requires
        a.wf(),
        are_named(a),
    ensures
        search_laws::connections_differ(a.lobbies),
{
    let pre = "lan."@ + a.title_id + "."@;
    assert forall|i: int, j: int| 0 <= i < j < a.lobbies.len() implies (
    #[trigger] a.lobbies[i]).1.connection != (#[trigger] a.lobbies[j]).1.connection by {
        let x = a.lobbies[i].1;
        let y = a.lobbies[j].1;
        assert(x.id != y.id);
        assert((pre + x.id).skip(pre.len() as int) =~= x.id);
        assert((pre + y.id).skip(pre.len() as int) =~= y.id);
    }
}

/// However lobbies are made, joined, left and updated, each is entered by its own name.
pub proof fn connections_stay_named(
    a: AppModel,
    body: JsonView,
    headers: Seq<(Seq<char>, Seq<char>)>,
    p: PlayerModel,
    stamp: Seq<char>,
    now: u64,
)
    requires
        a.wf(),
        are_named(a),
    ensures
        are_named(lobbies::with_new_lobby(a, body, p, stamp, now)),
        are_named(lobbies::join(a, body, headers).0),
        are_named(lobbies::leave(a, body, headers)),
        are_named(lobbies::update(a, body, headers)),
{
    let rest = if p.entity_id.len() == 0 {
        a.lobbies
    } else {
        lobbies::not_owned_by(a.lobbies, p.entity_id)
    };
    let l = lobbies::new_lobby(a, body, p, stamp, now);
    lobbies::lemma_not_owned_by(a.lobbies, p.entity_id);
    assoc::lemma_place(rest, l.id);
    let all = assoc::with(rest, l.id, l);
    let pre = "lan."@ + a.title_id + "."@;
    assert forall|i: int| 0 <= i < all.len() implies (#[trigger] all[i]).1.connection == pre
        + all[i].1.id by {
        if all[i].1 != l {
            assert(all[i] == rest[i]);
            assert(a.lobbies.contains(rest[i]));
            let k = choose|k: int| 0 <= k < a.lobbies.len() && a.lobbies[k] == rest[i];
            assert(a.lobbies[k].1.connection == pre + a.lobbies[k].1.id);
        }
    }
    lemma_joined_named(a, body, headers);
    lemma_left_named(a, body, headers);
    lemma_updated_named(a, body, headers);
}

proof fn lemma_joined_named(
    a: AppModel,
    body: JsonView,
    headers: Seq<(Seq<char>, Seq<char>)>,
)
    requires
        are_named(a),
    ensures
        are_named(lobbies::join(a, body, headers).0),
{
    let b = lobbies::join(a, body, headers).0;
    let c = lobbies::or_text(
        body.text_either("ConnectionString"@, "connectionString"@),
        Seq::empty(),
    );
    lobbies::lemma_connection_place(a.lobbies, c);
    assert forall|i: int| 0 <= i < b.lobbies.len() implies (#[trigger] b.lobbies[i]).1.connection
        == "lan."@ + b.title_id + "."@ + b.lobbies[i].1.id by {
        assert(a.lobbies[i].1.connection == "lan."@ + a.title_id + "."@ + a.lobbies[i].1.id);
    }
}

proof fn lemma_left_named(a: AppModel, body: JsonView, headers: Seq<(Seq<char>, Seq<char>)>)
    requires
        are_named(a),
    ensures
        are_named(lobbies::leave(a, body, headers)),
{
    let b = lobbies::leave(a, body, headers);
    let id = lobbies::or_text(body.text_either("LobbyId"@, "lobbyId"@), Seq::empty());
    assoc::lemma_place(a.lobbies, id);
    assert forall|i: int| 0 <= i < b.lobbies.len() implies (#[trigger] b.lobbies[i]).1.connection
        == "lan."@ + b.title_id + "."@ + b.lobbies[i].1.id by {
        assert(a.lobbies[i].1.connection == "lan."@ + a.title_id + "."@ + a.lobbies[i].1.id);
        if i + 1 < a.lobbies.len() {
            assert(a.lobbies[i + 1].1.connection == "lan."@ + a.title_id + "."@ + a.lobbies[i
                + 1].1.id);
        }
    }
}

proof fn lemma_updated_named(a: AppModel, body: JsonView, headers: Seq<(Seq<char>, Seq<char>)>)
    requires
        are_named(a),
    ensures
        are_named(lobbies::update(a, body, headers)),
{
    let b = lobbies::update(a, body, headers);
    let id = lobbies::or_text(body.text_either("LobbyId"@, "lobbyId"@), Seq::empty());
    assoc::lemma_place(a.lobbies, id);
    if let Some(k) = assoc::place(a.lobbies, id) {
        crate::lobby_laws::settings_are_updated(
            a.lobbies[k].1,
            body,
            a.requester(body, headers),
        );
    }
    assert forall|i: int| 0 <= i < b.lobbies.len() implies (#[trigger] b.lobbies[i]).1.connection
        == "lan."@ + b.title_id + "."@ + b.lobbies[i].1.id by {
        assert(a.lobbies[i].1.connection == "lan."@ + a.title_id + "."@ + a.lobbies[i].1.id);
    }
}

/// The game is told to reach the broker under the name under which it asked, and told so alike
/// when it boots and when it logs in.
pub proof fn game_is_told_where_it_asked(
    a: AppModel,
    headers: Seq<(Seq<char>, Seq<char>)>,
    now_secs: int,
    path: Seq<char>,
    stamp: Seq<char>,
    host: Seq<char>,
    port: Seq<char>,
)
    requires
        assoc::lookup(headers, "host"@) == Some(host + seq![':'] + port),
        !host.contains(':'),
        host.len() > 0,
        mesh::bare_path(path) == "sys/user_auth"@,
    ensures
        ({
            let d = routes::boot_view(a, headers, now_secs);
            let auth = routes::serve_game(a, path, headers, stamp);
            let ws = "ws"@ + "://"@ + host + ":"@ + text::decimal(a.ws_port as nat) + "/"@;
            &&& d.text_field("PlayfabTitleId"@) == Some(a.title_id)
            &&& d.text_field("WebsocketUrl"@) == Some(ws)
            &&& auth is Some
            &&& auth->0.body.field("data"@) is Some
            &&& auth->0.body.field("data"@)->0.text_field("ws_url"@) == Some(ws)
        }),
{
    lemma_find_in(host, port, ':');
    assert((host + seq![':'] + port).take(host.len() as int) =~= host);
    lemma_boot_names();
    let d = routes::boot_view(a, headers, now_secs)->Object_0;
    assert(d[0].0 == "PlayfabTitleId"@);
    assoc::lemma_place_is(d, "PlayfabTitleId"@, 0);
    assert(d[4].0 == "WebsocketUrl"@);
    assert forall|j: int| 0 <= j < 4 implies (#[trigger] d[j]).0 != "WebsocketUrl"@ by {
        assert(j == 0 || j == 1 || j == 2 || j == 3);
    }
    assoc::lemma_place_is(d, "WebsocketUrl"@, 4);
    lemma_auth_answer(a, path, headers, stamp);
}

proof fn lemma_boot_names()
    ensures
        "PlayfabTitleId"@.len() == 14,
        "PlaylogUrl"@.len() == 10,
        "NetworkStatsUrl"@.len() == 15,
        "GameapiUrl"@.len() == 10,
        "WebsocketUrl"@.len() == 12,
{
    reveal_strlit("PlayfabTitleId");
    reveal_strlit("PlaylogUrl");
    reveal_strlit("NetworkStatsUrl");
    reveal_strlit("GameapiUrl");
    reveal_strlit("WebsocketUrl");
}

proof fn lemma_auth_answer(
    a: AppModel,
    path: Seq<char>,
    headers: Seq<(Seq<char>, Seq<char>)>,
    stamp: Seq<char>,
)
    requires
        mesh::bare_path(path) == "sys/user_auth"@,
    ensures
        ({
            let auth = routes::serve_game(a, path, headers, stamp);
            &&& auth is Some
            &&& auth->0.body.field("data"@) is Some
            &&& auth->0.body.field("data"@)->0.text_field("ws_url"@) == Some(
                routes::url("ws"@, routes::asked_host(headers, "127.0.0.1"@), a.ws_port, "/"@),
            )
        }),
{
    reveal_strlit("sys/user_auth");
    reveal_strlit("sys/get_terms");
    reveal_strlit("get_terms");
    reveal_strlit("sys/get_news");
    reveal_strlit("get_news");
    assert("sys/user_auth"@[4] == 'u' && "sys/get_terms"@[4] == 'g');
    assert("sys/user_auth"@.len() == 13 && "get_terms"@.len() == 9 && "sys/get_news"@.len() == 12
        && "get_news"@.len() == 8);
    reveal_strlit("meta");
    reveal_strlit("common");
    reveal_strlit("data");
    reveal_strlit("auth_token");
    reveal_strlit("ws_url");
    assert("meta"@[0] != "data"@[0] && "common"@.len() != "data"@.len());
    assert("auth_token"@.len() != "ws_url"@.len());
    reveal_with_fuel(assoc::place, 4);
}

// Lobbies and their meshes

/// The line by which a lobby tells of its network names that network.
pub proof fn line_names_its_network(d: crate::descriptor::DescriptorView, fallback: crate::descriptor::Ip4)
    requires
        !d.id().contains('.'),
        vstd::utf8::encode_utf8(d.id()).len() >= 8,
    ensures
        crate::lobby_requests::network_id_in(d.line(fallback)) == Some(d.id()),
{
    let ip = match d.advert_ip() {
        Some(ip) => ip,
        None => fallback,
    };
    let rest = crate::bytes::hex_of(ip.octets());
    reveal_strlit(".");
    assert("."@ =~= seq!['.']);
    lemma_network_line(d.id(), rest);
}

proof fn lemma_network_line(nid: Seq<char>, rest: Seq<char>)
    requires
        !nid.contains('.'),
        vstd::utf8::encode_utf8(nid).len() >= 8,
    ensures
        crate::lobby_requests::network_id_in("LAN1."@ + nid + seq!['.'] + rest) == Some(nid),
{
    reveal_strlit("LAN1.");
    let s = "LAN1."@ + nid + seq!['.'] + rest;
    assert(s.take(5) =~= "LAN1."@);
    let r = s.skip(5);
    assert(r =~= nid + seq!['.'] + rest);
    lemma_find_in(nid, rest, '.');
    assert(r.take(nid.len() as int) =~= nid);
}

/// The owner of a lobby is there where the mesh that the lobby names has heard of it in the last
/// half minute, and not otherwise.
pub proof fn owner_is_there_while_heard_of(
    a: AppModel,
    l: LobbyState,
    now: u64,
    nid: Seq<char>,
    rest: Seq<char>,
)
    requires
        assoc::lookup(l.lobby_data, "network_descriptor"@) == Some(
            JsonView::Text("LAN1."@ + nid + seq!['.'] + rest),
        ),
        !nid.contains('.'),
        vstd::utf8::encode_utf8(nid).len() >= 8,
        l.owner_id().len() > 0,
    ensures
        ({
            let known = assoc::lookup(mesh::mesh_of(a, nid), l.owner_id());
            mesh::owner_is_live(a, l, now) <==> known is Some && now - known->0.seen.ticks
                <= half_a_minute()
        }),
{
    lemma_network_line(nid, rest);
}

}
