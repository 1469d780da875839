//! Party meshes: who is in one, where they are reached, and how long they are believed to be there.
use crate::assoc;
use crate::broker;
use crate::broker::{App, AppModel, Moment, MomentView, PartyMember, PartyMemberModel, PartyNet};
use crate::broker::{Reply, ReplyModel};
use crate::codec;
use crate::json;
use crate::json::{Json, JsonView};
use crate::lobbies;
use crate::lobby_requests;
use crate::text;
use vstd::prelude::*;

verus! {

/// What stands for a name in a query string.
pub open spec fn query_value(qs: Seq<char>, prefix: Seq<char>) -> Option<Seq<char>>
    decreases qs.len(),
{
    let k = text::find(qs, '&');
    let part = if 0 <= k < qs.len() { qs.take(k) } else { qs };
    if text::begins(part, prefix) {
        Some(part.skip(prefix.len() as int))
    } else if 0 <= k < qs.len() {
        query_value(qs.skip(k + 1), prefix)
    } else {
        None
    }
}

/// The registration count under one name, in the body or in the query; 0 where there is none.
pub open spec fn sequence_under(
    body: JsonView,
    qs: Seq<char>,
    key: Seq<char>,
    prefix: Seq<char>,
) -> u64 {
    let n = body.integer_field(key);
    if n is Some && n->0 > 0 {
        n->0 as u64
    } else {
        match query_value(qs, prefix) {
            Some(t) => match text::unsigned(t, u64::MAX as nat) {
                Some(v) => v as u64,
                None => 0,
            },
            None => 0,
        }
    }
}

/// The registration count that a request carries, under any of its names.
pub open spec fn sequence_of(body: JsonView, qs: Seq<char>) -> u64 {
    let a = sequence_under(body, qs, "member_seq"@, "member_seq="@);
    let b = sequence_under(body, qs, "join_epoch"@, "join_epoch="@);
    if a > 0 {
        a
    } else if b > 0 {
        b
    } else {
        sequence_under(body, qs, "join_seq"@, "join_seq="@)
    }
}

/// An address that only means the machine itself.
pub open spec fn is_loopback(s: Seq<char>) -> bool {
    let t = text::trimmed(s);
    t == "127.0.0.1"@ || t == "::1"@ || t == "0.0.0.0"@ || text::begins(t, "127."@)
}

/// The member was heard of recently enough.
pub open spec fn is_live(m: PartyMemberModel, now: u64) -> bool {
    now - m.seen.ticks <= broker::PARTY_SEEN_TTL
}

/// The members of a mesh that are live.
pub open spec fn live(net: Seq<(Seq<char>, PartyMemberModel)>, now: u64) -> Seq<
    (Seq<char>, PartyMemberModel),
>
    decreases net.len(),
{
    if net.len() == 0 {
        Seq::empty()
    } else if is_live(net[0].1, now) {
        seq![net[0]] + live(net.drop_first(), now)
    } else {
        live(net.drop_first(), now)
    }
}

/// What peers are told of a member.
pub open spec fn peer_view(m: PartyMemberModel) -> JsonView {
    JsonView::Object(
        seq![
            ("entity_id"@, JsonView::Text(m.entity_id)),
            ("ip"@, JsonView::Text(m.ip)),
            ("udp_port"@, json::int_view(m.udp_port as int)),
            ("seen"@, JsonView::Number(m.seen.text)),
            ("member_seq"@, JsonView::Number(text::decimal(m.member_seq as nat))),
        ],
    )
}

/// What peers are told of a mesh.
pub open spec fn mesh_view(nid: Seq<char>, net: Seq<(Seq<char>, PartyMemberModel)>) -> JsonView {
    JsonView::Object(
        seq![
            ("network_id"@, JsonView::Text(nid)),
            (
                "members"@,
                JsonView::Array(
                    net.map_values(|e: (Seq<char>, PartyMemberModel)| peer_view(e.1)),
                ),
            ),
        ],
    )
}

/// What the other side says of itself, or what its connection says of it: an address that only
/// means the machine itself is replaced by the one that the connection comes from.
pub open spec fn peer_address(body: JsonView, headers: Seq<(Seq<char>, Seq<char>)>) -> Seq<char> {
    let from = assoc::lookup(headers, "x-peer-ip"@);
    let said = if body.text_field("ip"@) is Some {
        body.text_field("ip"@)->0
    } else if assoc::lookup(headers, "x-forwarded-for"@) is Some {
        assoc::lookup(headers, "x-forwarded-for"@)->0
    } else if from is Some {
        from->0
    } else {
        "127.0.0.1"@
    };
    if is_loopback(said) && from is Some && !is_loopback(from->0) { from->0 } else { said }
}

/// The port that a body names: its low sixteen bits.
pub open spec fn peer_port(body: JsonView) -> u16 {
    match body.integer_field("udp_port"@) {
        Some(n) => (n % 0x1_0000) as u16,
        None => 0,
    }
}

/// A mesh after a member registered. One with an older count only shows that it is alive. `None`
/// where there is no room.
pub open spec fn registered(
    net: Seq<(Seq<char>, PartyMemberModel)>,
    m: PartyMemberModel,
    cap: i64,
) -> Option<Seq<(Seq<char>, PartyMemberModel)>> {
    match assoc::lookup(net, m.entity_id) {
        None => if net.len() >= cap { None } else { Some(assoc::with(net, m.entity_id, m)) },
        Some(known) => Some(
            assoc::with(
                net,
                m.entity_id,
                if m.member_seq != 0 && known.member_seq > m.member_seq {
                    PartyMemberModel { seen: m.seen, ..known }
                } else {
                    PartyMemberModel {
                        entity_id: known.entity_id,
                        member_seq: if known.member_seq > m.member_seq {
                            known.member_seq
                        } else {
                            m.member_seq
                        },
                        ..m
                    }
                },
            ),
        ),
    }
}

/// The mesh of a name, without members where there is none.
pub open spec fn mesh_of(a: AppModel, nid: Seq<char>) -> Seq<(Seq<char>, PartyMemberModel)> {
    match assoc::lookup(a.party, nid) {
        Some(net) => net,
        None => Seq::empty(),
    }
}

/// The text under a name in the body, else in the query.
pub open spec fn said(
    body: JsonView,
    qs: Seq<char>,
    key: Seq<char>,
    prefix: Seq<char>,
) -> Option<Seq<char>> {
    if body.text_field(key) is Some { body.text_field(key) } else { query_value(qs, prefix) }
}

/// The mesh that a request to join means; a fresh one where it names none.
pub open spec fn joined_name(body: JsonView, qs: Seq<char>, stamp: Seq<char>) -> Seq<char> {
    let named = said(body, qs, "network_id"@, "network_id="@);
    if named is Some && named->0.len() > 0 {
        named->0
    } else {
        "net-"@ + codec::sha1_hex_of(stamp).take(8)
    }
}

/// What a request to join a mesh leads to.
pub open spec fn join(
    a: AppModel,
    body: JsonView,
    qs: Seq<char>,
    headers: Seq<(Seq<char>, Seq<char>)>,
    stamp: Seq<char>,
    now: MomentView,
) -> (AppModel, ReplyModel) {
    let nid = joined_name(body, qs, stamp);
    let m = PartyMemberModel {
        entity_id: lobbies::or_text(body.text_field("entity_id"@), "anon"@),
        ip: peer_address(body, headers),
        udp_port: peer_port(body),
        seen: now,
        member_seq: sequence_of(body, qs),
    };
    let net = live(mesh_of(a, nid), now.ticks);
    match registered(net, m, a.mesh_cap()) {
        None => (
            AppModel { party: assoc::with(a.party, nid, net), ..a },
            broker::error_reply("PartyMemberLimitExceeded"@, "Party mesh is full"@),
        ),
        Some(net2) => (
            AppModel { party: assoc::with(a.party, nid, net2), ..a },
            broker::ok_reply(mesh_view(nid, net2)),
        ),
    }
}

/// A mesh after a member left it. A leave with an older count than the registration is too late.
pub open spec fn left(
    net: Seq<(Seq<char>, PartyMemberModel)>,
    eid: Seq<char>,
    seq: u64,
) -> Seq<(Seq<char>, PartyMemberModel)> {
    let known = assoc::lookup(net, eid);
    if seq != 0 && known is Some && known->0.member_seq > seq {
        net
    } else {
        assoc::without(net, eid)
    }
}

/// The broker after a request to leave a mesh.
pub open spec fn leave(a: AppModel, body: JsonView, qs: Seq<char>) -> AppModel {
    let nid = lobbies::or_text(body.text_field("network_id"@), Seq::empty());
    let eid = lobbies::or_text(body.text_field("entity_id"@), Seq::empty());
    match assoc::lookup(a.party, nid) {
        Some(net) => AppModel {
            party: assoc::with(a.party, nid, left(net, eid, sequence_of(body, qs))),
            ..a
        },
        None => a,
    }
}

/// A mesh with a member known to be alive: one that asks is.
pub open spec fn refreshed(
    net: Seq<(Seq<char>, PartyMemberModel)>,
    eid: Seq<char>,
    now: MomentView,
) -> Seq<(Seq<char>, PartyMemberModel)> {
    match assoc::lookup(net, eid) {
        Some(m) => if eid.len() > 0 {
            assoc::with(net, eid, PartyMemberModel { seen: now, ..m })
        } else {
            net
        },
        None => net,
    }
}

/// What a request for the peers of a mesh leads to.
pub open spec fn peers(a: AppModel, body: JsonView, qs: Seq<char>, now: MomentView) -> (
    AppModel,
    ReplyModel,
) {
    let nid = lobbies::or_text(said(body, qs, "network_id"@, "network_id="@), Seq::empty());
    let eid = lobbies::or_text(said(body, qs, "entity_id"@, "entity_id="@), Seq::empty());
    match assoc::lookup(a.party, nid) {
        Some(net) => {
            let net2 = live(refreshed(net, eid, now), now.ticks);
            (
                AppModel { party: assoc::with(a.party, nid, net2), ..a },
                broker::ok_reply(mesh_view(nid, net2)),
            )
        },
        None => (a, broker::ok_reply(mesh_view(nid, Seq::empty()))),
    }
}

/// The path of a request without its leading slashes.
pub open spec fn bare_path(path: Seq<char>) -> Seq<char> {
    path.skip(text::span(path, |c: char| c == '/'))
}

/// The part of a path before its query.
pub open spec fn path_part(path: Seq<char>) -> Seq<char> {
    path.take(text::find(path, '?'))
}

/// The query of a path, empty where there is none.
pub open spec fn query_part(path: Seq<char>) -> Seq<char> {
    let k = text::find(path, '?');
    if k < path.len() { path.skip(k + 1) } else { Seq::empty() }
}

/// What a request about meshes leads to; `None` where it is about something else.
pub open spec fn serve(
    a: AppModel,
    path: Seq<char>,
    body: JsonView,
    headers: Seq<(Seq<char>, Seq<char>)>,
    stamp: Seq<char>,
    now: MomentView,
) -> (AppModel, Option<ReplyModel>) {
    let p = bare_path(path_part(path));
    let qs = query_part(path);
    if p == "party/join"@ || p == "party/create"@ {
        let (b, r) = join(a, body, qs, headers, stamp, now);
        (b, Some(r))
    } else if p == "party/leave"@ {
        (leave(a, body, qs), Some(broker::ok_reply(broker::nothing())))
    } else if p == "party/peers"@ {
        let (b, r) = peers(a, body, qs, now);
        (b, Some(r))
    } else if p == "party/msg"@ {
        (a, Some(broker::ok_reply(broker::nothing())))
    } else {
        (a, None)
    }
}

/// Looks a name up in a query string.
fn query_get(qs: &[char], prefix: &[char]) -> (r: Option<Vec<char>>)
    ensures
        match r {
            Some(t) => query_value(qs@, prefix@) == Some(t@),
            None => query_value(qs@, prefix@) is None,
        },
    decreases qs@.len(),
{
    let k: usize = text::find_char(qs, '&');
    assert(qs@.take(qs@.len() as int) =~= qs@);
    let part = text::head(qs, k);
    if text::starts_with(part, prefix) {
        let mut r: Vec<char> = Vec::new();
        r.extend_from_slice(text::tail(part, prefix.len()));
        assert(r@ =~= part@.skip(prefix@.len() as int));
        return Some(r);
    }
    if k < qs.len() {
        query_get(text::tail(qs, k + 1), prefix)
    } else {
        None
    }
}

/// The registration count under one name.
fn read_sequence(body: &Json, qs: &[char], key: &str, prefix: &str) -> (r: u64)
    ensures
        r == sequence_under(body@, qs@, key@, prefix@),
{
    if let Some(n) = body.integer_field(key) {
        if n > 0 {
            return n as u64;
        }
    }
    let p = text::chars_of(prefix);
    match query_get(qs, p.as_slice()) {
        Some(t) => match text::parse_unsigned(t.as_slice(), u64::MAX) {
            Some(v) => v,
            None => 0,
        },
        None => 0,
    }
}

/// The registration count that a request carries.
pub fn member_seq_of(body: &Json, qs: &[char]) -> (r: u64)
    ensures
        r == sequence_of(body@, qs@),
{
    let a: u64 = read_sequence(body, qs, "member_seq", "member_seq=");
    if a > 0 {
        return a;
    }
    let b: u64 = read_sequence(body, qs, "join_epoch", "join_epoch=");
    if b > 0 {
        return b;
    }
    read_sequence(body, qs, "join_seq", "join_seq=")
}

/// Whether an address only means the machine itself.
pub fn is_loopback_ip(s: &str) -> (r: bool)
    ensures
        r == is_loopback(s@),
{
    let all = text::chars_of(s);
    let t = text::trim(all.as_slice());
    text::is_text(t, "127.0.0.1") || text::is_text(t, "::1") || text::is_text(t, "0.0.0.0")
        || text::starts_with(t, text::chars_of("127.").as_slice())
}

/// Live members are members, under names that stay distinct.
proof fn lemma_live(net: Seq<(Seq<char>, PartyMemberModel)>, now: u64)
    ensures
        live(net, now).len() <= net.len(),
        forall|i: int|
            0 <= i < live(net, now).len() ==> net.contains(#[trigger] live(net, now)[i]) && is_live(
                live(net, now)[i].1,
                now,
            ),
        assoc::distinct(net) ==> assoc::distinct(live(net, now)),
    decreases net.len(),
{
    if net.len() > 0 {
        let rest = net.drop_first();
        lemma_live(rest, now);
        let kept = live(rest, now);
        let all = live(net, now);
        assert forall|e: (Seq<char>, PartyMemberModel)| rest.contains(e) implies net.contains(e) by {
            let i = choose|i: int| 0 <= i < rest.len() && rest[i] == e;
            assert(net[i + 1] == e);
        }
        assert forall|i: int| 0 <= i < all.len() implies net.contains(#[trigger] all[i]) && is_live(
            all[i].1,
            now,
        ) by {
            if !is_live(net[0].1, now) {
                assert(all[i] == kept[i]);
            } else if i > 0 {
                assert(all[i] == kept[i - 1]);
            } else {
                assert(net.contains(net[0]));
            }
        }
        if assoc::distinct(net) {
            assert forall|i: int, j: int| 0 <= i < j < rest.len() implies (#[trigger] rest[i]).0
                != (#[trigger] rest[j]).0 by {
                assert(net[i + 1].0 != net[j + 1].0);
            }
            if is_live(net[0].1, now) {
                assert forall|i: int, j: int| 0 <= i < j < all.len() implies (#[trigger] all[i]).0
                    != (#[trigger] all[j]).0 by {
                    if i > 0 {
                        assert(kept[i - 1].0 != kept[j - 1].0);
                    } else {
                        let k = choose|k: int| 0 <= k < rest.len() && rest[k] == kept[j - 1];
                        assert(net[0].0 != net[k + 1].0);
                    }
                }
            }
        }
    }
}

impl PartyNet {
    /// Drops the members that are not live.
    fn retain_live(&mut self, now: u64)
        ensures
            final(self)@ == live(old(self)@, now),
            final(self)@.len() <= old(self)@.len(),
            assoc::distinct(old(self)@) ==> assoc::distinct(final(self)@),
    {
        let ghost all = self@;
        let ghost mut k: int = 0;
        let mut i: usize = 0;
        assert(all.skip(0) =~= all);
        assert(all.take(0) + live(all.skip(0), now) =~= live(all, now));
        while i < self.members.len()
            invariant
                i <= self.members@.len(),
                0 <= k <= all.len(),
                all == old(self)@,
                self@.skip(i as int) == all.skip(k),
                self@.take(i as int) + live(all.skip(k), now) == live(all, now),
            decreases self.members@.len() - i,
        {
            let ghost here = self@;
            assert(here.skip(i as int)[0] == here[i as int]);
            assert(here[i as int] == (self.members@[i as int].0@, self.members@[i as int].1@));
            assert(all.skip(k).drop_first() =~= all.skip(k + 1));
            let seen: u64 = self.members[i].1.seen.ticks;
            if now > seen && now - seen > broker::PARTY_SEEN_TTL {
                self.members.remove(i);
                assert(self@ =~= here.remove(i as int));
                assert(self@.skip(i as int) =~= here.skip(i as int).drop_first());
                assert(self@.take(i as int) =~= here.take(i as int));
            } else {
                assert(here.take(i + 1) + live(all.skip(k + 1), now) =~= here.take(i as int) + live(
                    all.skip(k),
                    now,
                ));
                assert(here.skip(i + 1) =~= here.skip(i as int).drop_first());
                i += 1;
            }
            proof {
                k = k + 1;
            }
        }
        proof {
            assert(self@.skip(i as int) =~= Seq::empty());
            assert(all.skip(k).len() == 0);
            assert(self@.take(i as int) + Seq::<(Seq<char>, PartyMemberModel)>::empty() =~= self@);
            lemma_live(all, now);
        }
    }

    /// Takes a member in. False where there is no room.
    fn register(&mut self, m: PartyMember, cap: i64) -> (r: bool)
        requires
            cap > 0,
        ensures
            r == (registered(old(self)@, m@, cap) is Some),
            r ==> registered(old(self)@, m@, cap) == Some(final(self)@),
            !r ==> final(self)@ == old(self)@,
            assoc::distinct(old(self)@) ==> assoc::distinct(final(self)@),
            old(self)@.len() <= cap ==> final(self)@.len() <= cap,
    {
        let ghost before = self@;
        let eid = m.entity_id.clone();
        let ghost key = eid@;
        assert(before.len() == self.members@.len());
        proof {
            assoc::lemma_place(before, key);
        }
        let known: Option<(String, String, u16, u64)> = match assoc::get(
            &self.members,
            eid.as_str(),
        ) {
            Some(k) => Some((k.entity_id.clone(), k.ip.clone(), k.udp_port, k.member_seq)),
            None => None,
        };
        match known {
            None => {
                if self.members.len() as u64 >= cap as u64 {
                    return false;
                }
                proof {
                    assoc::set_is_found(before, key, m@, Seq::empty());
                }
                assoc::put(&mut self.members, eid.as_str(), m);
                true
            },
            Some((entity_id, ip, udp_port, have)) => {
                let next = if m.member_seq != 0 && have > m.member_seq {
                    PartyMember { entity_id, ip, udp_port, seen: m.seen, member_seq: have }
                } else {
                    PartyMember {
                        entity_id,
                        ip: m.ip,
                        udp_port: m.udp_port,
                        seen: m.seen,
                        member_seq: if have > m.member_seq {
                            have
                        } else {
                            m.member_seq
                        },
                    }
                };
                proof {
                    assoc::set_is_found(before, key, next@, Seq::empty());
                }
                assoc::put(&mut self.members, eid.as_str(), next);
                true
            },
        }
    }

    /// Takes a member out, unless the request is older than its registration.
    fn unregister(&mut self, eid: &str, seq: u64)
        ensures
            final(self)@ == left(old(self)@, eid@, seq),
            assoc::distinct(old(self)@) ==> assoc::distinct(final(self)@),
            final(self)@.len() <= old(self)@.len(),
    {
        let ghost before = self@;
        let have: u64 = match assoc::get(&self.members, eid) {
            Some(m) => m.member_seq,
            None => 0,
        };
        if seq != 0 && have > seq {
            return;
        }
        proof {
            assoc::lemma_place(before, eid@);
            if assoc::distinct(before) {
                assoc::removed_is_gone(before, eid@, Seq::empty());
            }
        }
        assoc::drop_key(&mut self.members, eid);
    }

    /// Notes that a member is alive.
    fn refresh(&mut self, eid: &str, now: &Moment)
        ensures
            final(self)@ == refreshed(old(self)@, eid@, now@),
            assoc::distinct(old(self)@) ==> assoc::distinct(final(self)@),
            final(self)@.len() == old(self)@.len(),
    {
        let ghost before = self@;
        if eid.is_empty() {
            return;
        }
        proof {
            assoc::lemma_place(before, eid@);
        }
        let known: Option<PartyMember> = match assoc::get(&self.members, eid) {
            Some(k) => Some(
                PartyMember {
                    entity_id: k.entity_id.clone(),
                    ip: k.ip.clone(),
                    udp_port: k.udp_port,
                    seen: now.copy(),
                    member_seq: k.member_seq,
                },
            ),
            None => None,
        };
        if let Some(m) = known {
            proof {
                assoc::set_is_found(before, eid@, m@, Seq::empty());
            }
            assoc::put(&mut self.members, eid, m);
        }
    }

    /// What peers are told of the members.
    fn peer_list(&self) -> (r: Vec<Json>)
        ensures
            json::elements(r@) == self@.map_values(
                |e: (Seq<char>, PartyMemberModel)| peer_view(e.1),
            ),
    {
        let ghost want = self@.map_values(|e: (Seq<char>, PartyMemberModel)| peer_view(e.1));
        let mut out: Vec<Json> = Vec::new();
        let mut i: usize = 0;
        assert(json::elements(out@) =~= want.take(0));
        while i < self.members.len()
            invariant
                i <= self.members@.len(),
                want == self@.map_values(|e: (Seq<char>, PartyMemberModel)| peer_view(e.1)),
                json::elements(out@) == want.take(i as int),
            decreases self.members@.len() - i,
        {
            let ghost sofar = json::elements(out@);
            assert(self@[i as int].1 == self.members@[i as int].1@);
            out.push(peer_obj(&self.members[i].1));
            i += 1;
            assert(json::elements(out@) =~= sofar.push(want[i - 1]));
            assert(want.take(i as int) =~= want.take(i - 1).push(want[i - 1]));
        }
        assert(want.take(i as int) =~= want);
        out
    }
}

/// What peers are told of a member.
fn peer_obj(m: &PartyMember) -> (r: Json)
    ensures
        r@ == peer_view(m@),
{
    let mut o = broker::start();
    json::add_member(&mut o, "entity_id", json::string(m.entity_id.as_str()));
    json::add_member(&mut o, "ip", json::string(m.ip.as_str()));
    json::add_member(&mut o, "udp_port", json::integer_value(m.udp_port as i64));
    json::add_member(&mut o, "seen", Json::Number(m.seen.text.clone()));
    json::add_member(&mut o, "member_seq", Json::Number(text::decimal_text(m.member_seq)));
    let r = json::object(o);
    assert(r@->Object_0 =~= peer_view(m@)->Object_0);
    r
}

/// What peers are told of a mesh.
fn mesh_obj(nid: &str, members: Vec<Json>) -> (r: Json)
    ensures
        r@ == JsonView::Object(
            seq![
                ("network_id"@, JsonView::Text(nid@)),
                ("members"@, JsonView::Array(json::elements(members@))),
            ],
        ),
{
    let mut o = broker::start();
    json::add_member(&mut o, "network_id", json::string(nid));
    json::add_member(&mut o, "members", json::array(members));
    let r = json::object(o);
    assert(r@->Object_0 =~= seq![
        ("network_id"@, JsonView::Text(nid@)),
        ("members"@, JsonView::Array(json::elements(members@))),
    ]);
    r
}

/// The address of the other side.
fn read_address(body: &Json, headers: &Vec<(String, String)>) -> (r: String)
    ensures
        r@ == peer_address(body@, assoc::pairs(headers@)),
{
    let from = assoc::get(headers, "x-peer-ip");
    let told: String = match body.text_field("ip") {
        Some(t) => t.to_owned(),
        None => match assoc::get(headers, "x-forwarded-for") {
            Some(t) => t.clone(),
            None => match from {
                Some(t) => t.clone(),
                None => "127.0.0.1".to_owned(),
            },
        },
    };
    if is_loopback_ip(told.as_str()) {
        if let Some(t) = from {
            if !is_loopback_ip(t.as_str()) {
                return t.clone();
            }
        }
    }
    told
}

/// The port of the other side.
fn read_port(body: &Json) -> (r: u16)
    ensures
        r == peer_port(body@),
{
    match body.integer_field("udp_port") {
        Some(n) => if n >= 0 {
            (n % 0x1_0000) as u16
        } else {
            let m: i128 = (-(n as i128)) % 0x1_0000;
            if m == 0 {
                0
            } else {
                (0x1_0000 - m) as u16
            }
        },
        None => 0,
    }
}

/// The text under a name in the body, else in the query.
fn told(body: &Json, qs: &[char], key: &str, prefix: &str) -> (r: Option<String>)
    ensures
        broker::opt_view(r) == said(body@, qs@, key@, prefix@),
{
    match body.text_field(key) {
        Some(t) => Some(t.to_owned()),
        None => {
            let p = text::chars_of(prefix);
            match query_get(qs, p.as_slice()) {
                Some(t) => Some(text::text_of(t.as_slice())),
                None => None,
            }
        },
    }
}

/// A text, or an empty one where there is none.
fn or_empty(t: Option<String>) -> (r: String)
    ensures
        r@ == lobbies::or_text(broker::opt_view(t), Seq::empty()),
{
    match t {
        Some(s) => s,
        None => String::new(),
    }
}

/// A broker stays in order when a mesh in order is set.
proof fn lemma_mesh_set(a: AppModel, nid: Seq<char>, net: Seq<(Seq<char>, PartyMemberModel)>)
    requires
        a.wf(),
        assoc::distinct(net),
        net.len() <= a.mesh_cap(),
    ensures
        (AppModel { party: assoc::with(a.party, nid, net), ..a }).wf(),
{
    assoc::set_is_found(a.party, nid, net, Seq::empty());
    assoc::lemma_place(a.party, nid);
}

impl App {
    /// Takes a mesh out, without members where there is none.
    fn take_mesh(&mut self, nid: &str) -> (r: (Option<usize>, PartyNet))
        ensures
            r.1@ == mesh_of(old(self)@, nid@),
            match r.0 {
                Some(i) => assoc::place(old(self)@.party, nid@) == Some(i as int) && i
                    < old(self)@.party.len() && final(self)@.party == old(self)@.party.remove(i as int),
                None => assoc::place(old(self)@.party, nid@) is None && final(self)@.party
                    == old(self)@.party,
            },
            final(self)@ == (AppModel { party: final(self)@.party, ..old(self)@ }),
            old(self)@.wf() ==> assoc::distinct(r.1@) && r.1@.len() <= old(self)@.mesh_cap(),
    {
        let ghost a = self@;
        match assoc::find(&self.party, nid) {
            Some(i) => {
                assert(a.party[i as int].1 == self.party@[i as int].1@);
                let (key, net) = self.party.remove(i);
                assert(self@.party =~= a.party.remove(i as int));
                (Some(i), net)
            },
            None => {
                let net = PartyNet { members: Vec::new() };
                assert(net@ =~= Seq::empty());
                (None, net)
            },
        }
    }

    /// Puts a mesh back where it was taken out.
    fn put_mesh(&mut self, place: Option<usize>, nid: &str, net: PartyNet, Ghost(a): Ghost<AppModel>)
        requires
            match place {
                Some(i) => assoc::place(a.party, nid@) == Some(i as int) && i < a.party.len()
                    && old(self)@.party == a.party.remove(i as int),
                None => assoc::place(a.party, nid@) is None && old(self)@.party == a.party,
            },
            old(self)@ == (AppModel { party: old(self)@.party, ..a }),
        ensures
            final(self)@ == (AppModel { party: assoc::with(a.party, nid@, net@), ..a }),
    {
        match place {
            Some(i) => {
                let ghost here = self@.party;
                assert(here.len() == self.party@.len());
                self.party.insert(i, (nid.to_owned(), net));
                assert(self@.party =~= here.insert(i as int, (nid@, net@)));
                assert(self@.party =~= a.party.update(i as int, (nid@, net@)));
            },
            None => {
                self.party.push((nid.to_owned(), net));
                assert(self@.party =~= a.party.push((nid@, net@)));
            },
        }
    }

    /// Answers a request to join a mesh.
    pub fn join_party(
        &mut self,
        body: &Json,
        qs: &[char],
        headers: &Vec<(String, String)>,
        stamp: &str,
        now: &Moment,
    ) -> (r: Reply)
        ensures
            (final(self)@, r@) == join(
                old(self)@,
                body@,
                qs@,
                assoc::pairs(headers@),
                stamp@,
                now@,
            ),
            old(self)@.wf() ==> final(self)@.wf(),
    {
        let ghost a = self@;
        let named = told(body, qs, "network_id", "network_id=");
        let mut nid = or_empty(named);
        if nid.as_str().is_empty() {
            let digest = codec::sha1_hex(stamp);
            let v = text::chars_of(digest.as_str());
            nid = String::new();
            nid.append("net-");
            nid.append(text::text_of(text::head(v.as_slice(), 8)).as_str());
            assert(nid@ =~= "net-"@ + digest@.take(8));
        }
        assert(nid@ == joined_name(body@, qs@, stamp@));
        let m = PartyMember {
            entity_id: match body.text_field("entity_id") {
                Some(t) => t.to_owned(),
                None => "anon".to_owned(),
            },
            ip: read_address(body, headers),
            udp_port: read_port(body),
            seen: now.copy(),
            member_seq: member_seq_of(body, qs),
        };
        let cap: i64 = broker::clamp_max_players(self.max_players);
        let (place, net) = self.take_mesh(nid.as_str());
        let mut net = net;
        net.retain_live(now.ticks);
        let room = net.register(m, cap);
        let list = net.peer_list();
        let ghost after = net@;
        proof {
            if a.wf() {
                lemma_mesh_set(a, nid@, after);
            }
        }
        self.put_mesh(place, nid.as_str(), net, Ghost(a));
        if !room {
            return broker::playfab_err("PartyMemberLimitExceeded", "Party mesh is full");
        }
        let data = mesh_obj(nid.as_str(), list);
        assert(data@ == mesh_view(nid@, after));
        broker::playfab_ok(data)
    }

    /// Takes a member out of a mesh.
    pub fn leave_party(&mut self, body: &Json, qs: &[char])
        ensures
            final(self)@ == leave(old(self)@, body@, qs@),
            old(self)@.wf() ==> final(self)@.wf(),
    {
        let ghost a = self@;
        let nid = or_empty(
            match body.text_field("network_id") {
                Some(t) => Some(t.to_owned()),
                None => None,
            },
        );
        let eid = or_empty(
            match body.text_field("entity_id") {
                Some(t) => Some(t.to_owned()),
                None => None,
            },
        );
        if assoc::find(&self.party, nid.as_str()).is_none() {
            return;
        }
        let (place, net) = self.take_mesh(nid.as_str());
        let mut net = net;
        net.unregister(eid.as_str(), member_seq_of(body, qs));
        proof {
            if a.wf() {
                lemma_mesh_set(a, nid@, net@);
            }
        }
        self.put_mesh(place, nid.as_str(), net, Ghost(a));
    }

    /// Answers a request for the peers of a mesh.
    pub fn list_peers(&mut self, body: &Json, qs: &[char], now: &Moment) -> (r: Reply)
        ensures
            (final(self)@, r@) == peers(old(self)@, body@, qs@, now@),
            old(self)@.wf() ==> final(self)@.wf(),
    {
        let ghost a = self@;
        let nid = or_empty(told(body, qs, "network_id", "network_id="));
        let eid = or_empty(told(body, qs, "entity_id", "entity_id="));
        if assoc::find(&self.party, nid.as_str()).is_none() {
            let none: Vec<Json> = Vec::new();
            let data = mesh_obj(nid.as_str(), none);
            assert(json::elements(none@) =~= Seq::<(Seq<char>, PartyMemberModel)>::empty().map_values(
                |e: (Seq<char>, PartyMemberModel)| peer_view(e.1),
            ));
            return broker::playfab_ok(data);
        }
        let (place, net) = self.take_mesh(nid.as_str());
        let mut net = net;
        net.refresh(eid.as_str(), now);
        net.retain_live(now.ticks);
        let list = net.peer_list();
        let ghost after = net@;
        proof {
            if a.wf() {
                lemma_mesh_set(a, nid@, after);
            }
        }
        self.put_mesh(place, nid.as_str(), net, Ghost(a));
        let data = mesh_obj(nid.as_str(), list);
        assert(data@ == mesh_view(nid@, after));
        broker::playfab_ok(data)
    }

    /// Answers a request about meshes; `None` where it is about something else.
    pub fn handle_party(
        &mut self,
        path: &[char],
        body: &Json,
        headers: &Vec<(String, String)>,
        stamp: &str,
        now: &Moment,
    ) -> (r: Option<Reply>)
        ensures
            (final(self)@, reply_view(r)) == serve(
                old(self)@,
                path@,
                body@,
                assoc::pairs(headers@),
                stamp@,
                now@,
            ),
            old(self)@.wf() ==> final(self)@.wf(),
    {
        let k: usize = text::find_char(path, '?');
        let p = strip_slashes(text::head(path, k));
        let qs: &[char] = if k < path.len() {
            text::tail(path, k + 1)
        } else {
            assert(path@.skip(k as int) =~= Seq::empty());
            text::tail(path, k)
        };
        if text::is_text(p, "party/join") || text::is_text(p, "party/create") {
            return Some(self.join_party(body, qs, headers, stamp, now));
        }
        if text::is_text(p, "party/leave") {
            self.leave_party(body, qs);
            return Some(broker::playfab_ok(broker::empty_object()));
        }
        if text::is_text(p, "party/peers") {
            return Some(self.list_peers(body, qs, now));
        }
        if text::is_text(p, "party/msg") {
            return Some(broker::playfab_ok(broker::empty_object()));
        }
        None
    }
}

/// The model of an optional answer.
pub open spec fn reply_view(r: Option<Reply>) -> Option<ReplyModel> {
    match r {
        Some(x) => Some(x@),
        None => None,
    }
}

/// A path without its leading slashes.
pub fn strip_slashes(path: &[char]) -> (r: &[char])
    ensures
        r@ == bare_path(path@),
{
    let mut i: usize = 0;
    while i < path.len() && path[i] == '/'
        invariant
            i <= path@.len(),
            forall|j: int| 0 <= j < i ==> #[trigger] path@[j] == '/',
        decreases path@.len() - i,
    {
        i += 1;
    }
    proof {
        text::lemma_span(path@, |c: char| c == '/', i as int);
    }
    text::tail(path, i)
}

// What holds of every mesh

/// A leave that answers an older registration does not undo a newer one.
pub proof fn late_leave_keeps_registration(
    net: Seq<(Seq<char>, PartyMemberModel)>,
    m: PartyMemberModel,
    cap: i64,
    older: u64,
)
    requires
        registered(net, m, cap) is Some,
        0 < older < m.member_seq,
    ensures
        assoc::lookup(left(registered(net, m, cap)->0, m.entity_id, older), m.entity_id) is Some,
{
    let after = registered(net, m, cap)->0;
    assoc::lemma_place(net, m.entity_id);
    assoc::lemma_place(after, m.entity_id);
    match assoc::place(net, m.entity_id) {
        Some(i) => assoc::lemma_place_is(after, m.entity_id, i),
        None => assoc::lemma_place_is(after, m.entity_id, net.len() as int),
    }
}

/// A registration is never undone or aged by one with an older count.
pub proof fn late_join_keeps_registration(
    net: Seq<(Seq<char>, PartyMemberModel)>,
    m: PartyMemberModel,
    cap: i64,
)
    requires
        assoc::lookup(net, m.entity_id) is Some,
        0 < m.member_seq < assoc::lookup(net, m.entity_id)->0.member_seq,
    ensures
        registered(net, m, cap) is Some,
        assoc::lookup(registered(net, m, cap)->0, m.entity_id) == Some(
            PartyMemberModel { seen: m.seen, ..assoc::lookup(net, m.entity_id)->0 },
        ),
{
    let known = assoc::lookup(net, m.entity_id)->0;
    assoc::set_is_found(
        net,
        m.entity_id,
        PartyMemberModel { seen: m.seen, ..known },
        Seq::empty(),
    );
}

proof fn lemma_live_keeps(
    net: Seq<(Seq<char>, PartyMemberModel)>,
    e: (Seq<char>, PartyMemberModel),
    now: u64,
)
    requires
        net.contains(e),
        is_live(e.1, now),
    ensures
        live(net, now).contains(e),
    decreases net.len(),
{
    let k = choose|k: int| 0 <= k < net.len() && net[k] == e;
    let rest = net.drop_first();
    if k == 0 {
        assert(live(net, now)[0] == e);
    } else {
        assert(rest[k - 1] == e);
        lemma_live_keeps(rest, e, now);
        let inner = live(rest, now);
        let j = choose|j: int| 0 <= j < inner.len() && inner[j] == e;
        if is_live(net[0].1, now) {
            assert(live(net, now)[j + 1] == e);
        } else {
            assert(live(net, now)[j] == e);
        }
    }
}

/// A member that asks for its peers is among them, however long it was not heard of.
pub proof fn asking_keeps_alive(
    net: Seq<(Seq<char>, PartyMemberModel)>,
    eid: Seq<char>,
    now: MomentView,
)
    requires
        eid.len() > 0,
        assoc::lookup(net, eid) is Some,
    ensures
        assoc::lookup(live(refreshed(net, eid, now), now.ticks), eid) is Some,
{
    let r = refreshed(net, eid, now);
    let m = PartyMemberModel { seen: now, ..assoc::lookup(net, eid)->0 };
    assoc::lemma_place(net, eid);
    let i = assoc::place(net, eid)->0;
    assert(r[i] == (eid, m));
    lemma_live_keeps(r, (eid, m), now.ticks);
    let l = live(r, now.ticks);
    let j = choose|j: int| 0 <= j < l.len() && l[j] == (eid, m);
    assoc::lemma_place(l, eid);
    assert(l[j].0 == eid);
}

/// The mesh that a lobby tells of, where it tells of one.
pub open spec fn lobby_network(l: broker::LobbyState) -> Option<Seq<char>> {
    match assoc::lookup(l.lobby_data, "network_descriptor"@) {
        Some(JsonView::Text(t)) => lobby_requests::network_id_in(t),
        _ => None,
    }
}

/// The owner of a lobby is alive in the lobby's mesh.
pub open spec fn owner_is_live(a: AppModel, l: broker::LobbyState, now: u64) -> bool {
    match lobby_network(l) {
        Some(nid) => l.owner_id().len() > 0 && match assoc::lookup(mesh_of(a, nid), l.owner_id()) {
            Some(m) => is_live(m, now),
            None => false,
        },
        None => false,
    }
}

/// Reads the mesh that a lobby tells of.
pub fn lobby_lan1_network_id(l: &broker::Lobby) -> (r: Option<String>)
    ensures
        broker::opt_view(r) == lobby_network(l@),
{
    match assoc::get(&l.lobby_data, "network_descriptor") {
        Some(j) => match j.text() {
            Some(t) => lobby_requests::lan1_network_id(t),
            None => None,
        },
        None => None,
    }
}

impl App {
    /// Whether the owner of a lobby is alive in the lobby's mesh.
    pub fn lobby_owner_in_party(&self, l: &broker::Lobby, now: u64) -> (r: bool)
        ensures
            r == owner_is_live(self@, l@, now),
    {
        let nid = match lobby_lan1_network_id(l) {
            Some(nid) => nid,
            None => {
                return false;
            },
        };
        let owner = l.owner_id();
        if text::is_empty(owner.as_str()) {
            return false;
        }
        match assoc::get(&self.party, nid.as_str()) {
            Some(net) => match assoc::get(&net.members, owner.as_str()) {
                Some(m) => now <= m.seen.ticks || now - m.seen.ticks <= broker::PARTY_SEEN_TTL,
                None => false,
            },
            None => false,
        }
    }
}

}
