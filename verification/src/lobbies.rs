//! Making, joining, changing, leaving and showing lobbies.
use crate::assoc;
use crate::broker;
use crate::broker::{App, AppModel, Lobby, LobbyState, Player, PlayerModel, Reply, ReplyModel};
use crate::codec;
use crate::json;
use crate::json::{Json, JsonView};
use crate::text;
use vstd::prelude::*;

verus! {

/// The policy for when the owner leaves, by number or by name; none where it is something else.
pub open spec fn migration_policy(body: JsonView) -> i64 {
    match body.either("OwnerMigrationPolicy"@, "ownerMigrationPolicy"@) {
        Some(JsonView::Number(t)) => match json::whole(t) {
            Some(n) => if !(i64::MIN <= n <= i64::MAX) || n < 0 {
                0
            } else if n > 3 {
                3
            } else {
                n as i64
            },
            None => 0,
        },
        Some(JsonView::Text(t)) => if text::lowered(t) == "automatic"@ {
            1
        } else if text::lowered(t) == "manual"@ {
            2
        } else if text::lowered(t) == "server"@ {
            3
        } else {
            0
        },
        _ => 0,
    }
}

/// An entry for a member.
pub open spec fn member_entry(
    eid: Seq<char>,
    entity: JsonView,
    data: Seq<(Seq<char>, JsonView)>,
) -> JsonView {
    JsonView::Object(
        seq![
            ("Id"@, JsonView::Text(eid)),
            ("MemberEntity"@, entity),
            ("MemberData"@, JsonView::Object(data)),
        ],
    )
}

/// The first of the members that a body lists, if it lists any.
pub open spec fn first_member(body: JsonView) -> Option<JsonView> {
    match body.either("Members"@, "members"@) {
        Some(JsonView::Array(v)) => if v.len() > 0 { Some(v[0]) } else { None },
        _ => None,
    }
}

/// The members of the object that an optional value is.
pub open spec fn members_of(j: Option<JsonView>) -> Seq<(Seq<char>, JsonView)> {
    match j {
        Some(v) => v.members_or_none(),
        None => Seq::empty(),
    }
}

/// A text, or another where there is none.
pub open spec fn or_text(t: Option<Seq<char>>, other: Seq<char>) -> Seq<char> {
    match t {
        Some(s) => s,
        None => other,
    }
}

/// The first of three names that the object has.
pub open spec fn one_of_three(
    body: JsonView,
    a: Seq<char>,
    b: Seq<char>,
    c: Seq<char>,
) -> Option<JsonView> {
    if body.either(a, b) is Some { body.either(a, b) } else { body.field(c) }
}

/// The lobbies that somebody else owns.
pub open spec fn not_owned_by(
    lobbies: Seq<(Seq<char>, LobbyState)>,
    eid: Seq<char>,
) -> Seq<(Seq<char>, LobbyState)>
    decreases lobbies.len(),
{
    if lobbies.len() == 0 {
        Seq::empty()
    } else if lobbies[0].1.owner_id() == eid {
        not_owned_by(lobbies.drop_first(), eid)
    } else {
        seq![lobbies[0]] + not_owned_by(lobbies.drop_first(), eid)
    }
}

/// The name of a new lobby.
pub open spec fn new_lobby_id(p: PlayerModel, stamp: Seq<char>) -> Seq<char> {
    "lan-"@ + codec::sha1_hex_of(stamp + p.entity_id).take(12)
}

/// The owner that a body names, else the account.
pub open spec fn new_owner(body: JsonView, p: PlayerModel) -> JsonView {
    match body.either("Owner"@, "owner"@) {
        Some(o) => o,
        None => broker::entity_view(p),
    }
}

/// The entity of a new lobby's first member: the one listed, else the owner.
pub open spec fn founder_entity(body: JsonView, p: PlayerModel) -> JsonView {
    match first_member(body) {
        Some(m) => match m.either("MemberEntity"@, "memberEntity"@) {
            Some(e) => e,
            None => new_owner(body, p),
        },
        None => new_owner(body, p),
    }
}

/// The data of a new lobby's first member: that of the one listed, and that of the body over it.
pub open spec fn founder_data(body: JsonView) -> Seq<(Seq<char>, JsonView)> {
    let listed = match first_member(body) {
        Some(m) => members_of(m.either("MemberData"@, "memberData"@)),
        None => Seq::empty(),
    };
    json::with_all(listed, broker::object_field(body, "MemberData"@))
}

/// The lobby that a request makes.
pub open spec fn new_lobby(
    a: AppModel,
    body: JsonView,
    p: PlayerModel,
    stamp: Seq<char>,
    now: u64,
) -> LobbyState {
    let id = new_lobby_id(p, stamp);
    let entity = founder_entity(body, p);
    let mid = or_text(entity.text_field("Id"@), p.entity_id);
    LobbyState {
        id,
        connection: "lan."@ + a.title_id + "."@ + id,
        owner: new_owner(body, p),
        owner_migration_policy: migration_policy(body),
        max_players: a.lobby_max(body.integer_either("MaxPlayers"@, "maxPlayers"@)),
        lobby_data: members_of(
            one_of_three(body, "LobbyData"@, "lobbyData"@, "lobbyProperties"@),
        ),
        search_data: members_of(
            one_of_three(body, "SearchData"@, "searchData"@, "searchProperties"@),
        ),
        access_policy: or_text(body.text_field("AccessPolicy"@), "Public"@),
        membership_lock: or_text(
            body.text_either("MembershipLock"@, "membershipLock"@),
            "Unlocked"@,
        ),
        members: seq![member_entry(mid, entity, broker::filled(founder_data(body), mid))],
        created: now,
    }
}

/// The broker with the lobby that a request makes in place of the account's others.
pub open spec fn with_new_lobby(
    a: AppModel,
    body: JsonView,
    p: PlayerModel,
    stamp: Seq<char>,
    now: u64,
) -> AppModel {
    let rest = if p.entity_id.len() == 0 {
        a.lobbies
    } else {
        not_owned_by(a.lobbies, p.entity_id)
    };
    let l = new_lobby(a, body, p, stamp, now);
    AppModel { lobbies: assoc::with(rest, l.id, l), ..a }
}

/// A member's entry.
pub fn make_member(eid: &str, entity: Json, data: Vec<(String, Json)>) -> (r: Json)
    ensures
        r@ == member_entry(eid@, entity@, json::members(data@)),
{
    let mut o = broker::start();
    json::add_member(&mut o, "Id", json::string(eid));
    json::add_member(&mut o, "MemberEntity", entity);
    json::add_member(&mut o, "MemberData", json::object(data));
    let r = json::object(o);
    assert(r@->Object_0 =~= member_entry(eid@, entity@, json::members(data@))->Object_0);
    r
}

/// The policy for when the owner leaves.
pub fn parse_owner_migration_policy(body: &Json) -> (r: i64)
    ensures
        r == migration_policy(body@),
        0 <= r <= 3,
{
    match body.either("OwnerMigrationPolicy", "ownerMigrationPolicy") {
        Some(Json::Number(t)) => {
            let v = text::chars_of(t.as_str());
            let s = v.as_slice();
            if s.len() > 0 && s[0] == '-' {
                assert(!text::is_digit(s@[0]));
                return 0;
            }
            match text::parse_digits(s, i64::MAX as u64) {
                Some(n) => if n > 3 {
                    3
                } else {
                    n as i64
                },
                None => 0,
            }
        },
        Some(Json::Text(t)) => {
            let l = text::to_lowered(text::chars_of(t.as_str()).as_slice());
            if text::is_text(l.as_slice(), "automatic") {
                1
            } else if text::is_text(l.as_slice(), "manual") {
                2
            } else if text::is_text(l.as_slice(), "server") {
                3
            } else {
                0
            }
        },
        _ => 0,
    }
}

/// A text, or another where there is none.
fn text_or(t: Option<&str>, other: &str) -> (r: String)
    ensures
        r@ == or_text(
            match t {
                Some(s) => Some(s@),
                None => None,
            },
            other@,
        ),
{
    match t {
        Some(s) => s.to_owned(),
        None => other.to_owned(),
    }
}

/// The first of three names that the object has.
fn any_of_three<'a>(body: &'a Json, a: &str, b: &str, c: &str) -> (r: Option<&'a Json>)
    ensures
        match r {
            Some(j) => one_of_three(body@, a@, b@, c@) == Some(j@),
            None => one_of_three(body@, a@, b@, c@) is None,
        },
{
    match body.either(a, b) {
        Some(j) => Some(j),
        None => body.field(c),
    }
}

/// The first of the members that a body lists.
fn first_listed(body: &Json) -> (r: Option<&Json>)
    ensures
        match r {
            Some(j) => first_member(body@) == Some(j@),
            None => first_member(body@) is None,
        },
{
    match body.either("Members", "members") {
        Some(j) => match j.elements() {
            Some(v) => if v.len() > 0 {
                assert(json::elements(v@)[0] == v@[0]@);
                Some(&v[0])
            } else {
                None
            },
            None => None,
        },
        None => None,
    }
}

/// The first `n` characters of a text after a prefix.
fn prefixed_start(prefix: &str, s: &str, n: usize) -> (r: String)
    requires
        n <= s@.len(),
    ensures
        r@ == prefix@ + s@.take(n as int),
{
    let v = text::chars_of(s);
    let mut r = String::new();
    r.append(prefix);
    r.append(text::text_of(text::head(v.as_slice(), n)).as_str());
    assert(r@ =~= prefix@ + s@.take(n as int));
    r
}

/// Names stay unique, and lobbies as they were, when some are taken out.
pub proof fn lemma_not_owned_by(lobbies: Seq<(Seq<char>, LobbyState)>, eid: Seq<char>)
    ensures
        forall|i: int|
            0 <= i < not_owned_by(lobbies, eid).len() ==> lobbies.contains(
                #[trigger] not_owned_by(lobbies, eid)[i],
            ) && not_owned_by(lobbies, eid)[i].1.owner_id() != eid,
        assoc::distinct(lobbies) ==> assoc::distinct(not_owned_by(lobbies, eid)),
    decreases lobbies.len(),
{
    if lobbies.len() > 0 {
        let rest = lobbies.drop_first();
        lemma_not_owned_by(rest, eid);
        let kept = not_owned_by(rest, eid);
        let all = not_owned_by(lobbies, eid);
        assert(lobbies[0] == lobbies.first());
        assert forall|e: (Seq<char>, LobbyState)| rest.contains(e) implies lobbies.contains(e) by {
            let i = choose|i: int| 0 <= i < rest.len() && rest[i] == e;
            assert(lobbies[i + 1] == e);
        }
        assert forall|i: int| 0 <= i < all.len() implies lobbies.contains(#[trigger] all[i])
            && all[i].1.owner_id() != eid by {
            if lobbies[0].1.owner_id() == eid {
                assert(all[i] == kept[i]);
            } else if i > 0 {
                assert(all[i] == kept[i - 1]);
            } else {
                assert(lobbies.contains(lobbies[0]));
            }
        }
        if assoc::distinct(lobbies) {
            assert forall|i: int, j: int| 0 <= i < j < rest.len() implies (#[trigger] rest[i]).0
                != (#[trigger] rest[j]).0 by {
                assert(lobbies[i + 1].0 != lobbies[j + 1].0);
            }
            if lobbies[0].1.owner_id() != eid {
                assert forall|i: int, j: int| 0 <= i < j < all.len() implies (#[trigger] all[i]).0
                    != (#[trigger] all[j]).0 by {
                    if i > 0 {
                        assert(kept[i - 1].0 != kept[j - 1].0);
                    } else {
                        let k = choose|k: int| 0 <= k < rest.len() && rest[k] == kept[j - 1];
                        assert(lobbies[0].0 != lobbies[k + 1].0);
                    }
                }
            }
        }
    }
}

/// A broker stays in order when a lobby in order is set.
pub proof fn lemma_lobby_set(a: AppModel, key: Seq<char>, l: LobbyState)
    requires
        a.wf(),
        l.wf(),
        l.id == key,
    ensures
        (AppModel { lobbies: assoc::with(a.lobbies, key, l), ..a }).wf(),
{
    assoc::set_is_found(a.lobbies, key, l, Seq::empty());
    assoc::lemma_place(a.lobbies, key);
}

impl App {
    /// How many players a new lobby is for.
    pub fn resolve_lobby_max(&self, requested: Option<i64>) -> (r: i64)
        ensures
            r == self@.lobby_max(
                match requested {
                    Some(n) => Some(n as int),
                    None => None,
                },
            ),
            broker::MIN_PLAYERS <= r <= broker::MAX_PLAYERS_CEILING,
    {
        let cfg: i64 = broker::clamp_max_players(self.max_players);
        if self.override_game_max {
            return cfg;
        }
        match requested {
            Some(n) => broker::clamp_max_players(n),
            None => cfg,
        }
    }

    /// Takes out the lobbies that an account owns.
    fn drop_owner_lobbies(&mut self, owner_id: &str)
        ensures
            final(self)@ == (AppModel {
                lobbies: if owner_id@.len() == 0 {
                    old(self)@.lobbies
                } else {
                    not_owned_by(old(self)@.lobbies, owner_id@)
                },
                ..old(self)@
            }),
            old(self)@.wf() ==> final(self)@.wf(),
    {
        if owner_id.is_empty() {
            return;
        }
        let ghost all = self@.lobbies;
        let ghost mut k: int = 0;
        let mut i: usize = 0;
        assert(all.skip(0) =~= all);
        assert(all.take(0) + all.skip(0) =~= all);
        assert(self@.lobbies.take(0) + not_owned_by(all.skip(0), owner_id@) =~= not_owned_by(
            all,
            owner_id@,
        ));
        while i < self.lobbies.len()
            invariant
                i <= self.lobbies@.len(),
                0 <= k <= all.len(),
                all == old(self)@.lobbies,
                owner_id@.len() > 0,
                self@.lobbies.skip(i as int) == all.skip(k),
                self@.lobbies.take(i as int) + not_owned_by(all.skip(k), owner_id@)
                    == not_owned_by(all, owner_id@),
                self@ == (AppModel { lobbies: self@.lobbies, ..old(self)@ }),
            decreases self.lobbies@.len() - i,
        {
            let ghost here = self@.lobbies;
            assert(here.skip(i as int)[0] == here[i as int]);
            assert(here[i as int] == (self.lobbies@[i as int].0@, self.lobbies@[i as int].1@));
            assert(all.skip(k).drop_first() =~= all.skip(k + 1));
            if text::eq(self.lobbies[i].1.owner_id().as_str(), owner_id) {
                self.lobbies.remove(i);
                assert(self@.lobbies =~= here.remove(i as int));
                assert(self@.lobbies.skip(i as int) =~= here.skip(i as int).drop_first());
                assert(self@.lobbies.take(i as int) =~= here.take(i as int));
            } else {
                assert(here.take(i + 1) + not_owned_by(all.skip(k + 1), owner_id@) =~= here.take(
                    i as int,
                ) + not_owned_by(all.skip(k), owner_id@));
                assert(here.skip(i + 1) =~= here.skip(i as int).drop_first());
                i += 1;
            }
            proof {
                k = k + 1;
            }
        }
        proof {
            assert(self@.lobbies.skip(i as int) =~= Seq::empty());
            assert(all.skip(k).len() == 0);
            assert(self@.lobbies.take(i as int) + Seq::<(Seq<char>, LobbyState)>::empty()
                =~= self@.lobbies);
            lemma_not_owned_by(all, owner_id@);
            if old(self)@.wf() {
                assert forall|j: int| 0 <= j < self@.lobbies.len() implies (
                #[trigger] self@.lobbies[j]).1.id == self@.lobbies[j].0 && self@.lobbies[j].1.wf() by {
                    assert(all.contains(self@.lobbies[j]));
                }
            }
        }
    }

    /// Makes a lobby for an account and returns its name.
    pub fn create_lobby(&mut self, body: &Json, player: &Player, stamp: &str, now: u64) -> (id:
        String)
        ensures
            final(self)@ == with_new_lobby(old(self)@, body@, player@, stamp@, now),
            id@ == new_lobby_id(player@, stamp@),
            old(self)@.wf() ==> final(self)@.wf(),
    {
        let mut seed = String::new();
        seed.append(stamp);
        seed.append(player.entity_id.as_str());
        assert(seed@ =~= stamp@ + player@.entity_id);
        let id = prefixed_start("lan-", codec::sha1_hex(seed.as_str()).as_str(), 12);
        let owner = match body.either("Owner", "owner") {
            Some(o) => o.copy(),
            None => broker::entity_obj(player),
        };
        let mut entity = owner.copy();
        let mut data: Vec<(String, Json)> = broker::start();
        if let Some(first) = first_listed(body) {
            data = broker::members_or_none(first.either("MemberData", "memberData"));
            if let Some(e) = first.either("MemberEntity", "memberEntity") {
                entity = e.copy();
            }
        }
        let joined = broker::members_or_none(body.field("MemberData"));
        json::put_all(&mut data, &joined);
        let mid = text_or(entity.text_field("Id"), player.entity_id.as_str());
        broker::fill_member_data(&mut data, mid.as_str());
        let mut connection = String::new();
        connection.append("lan.");
        connection.append(self.title_id.as_str());
        connection.append(".");
        connection.append(id.as_str());
        assert(connection@ =~= "lan."@ + self@.title_id + "."@ + id@);
        let max_players: i64 = self.resolve_lobby_max(
            body.integer_either("MaxPlayers", "maxPlayers"),
        );
        let mut members: Vec<Json> = Vec::new();
        members.push(make_member(mid.as_str(), entity, data));
        let lobby = Lobby {
            id: id.clone(),
            connection,
            owner,
            owner_migration_policy: parse_owner_migration_policy(body),
            max_players,
            lobby_data: broker::members_or_none(
                any_of_three(body, "LobbyData", "lobbyData", "lobbyProperties"),
            ),
            search_data: broker::members_or_none(
                any_of_three(body, "SearchData", "searchData", "searchProperties"),
            ),
            access_policy: text_or(body.text_field("AccessPolicy"), "Public"),
            membership_lock: text_or(
                body.text_either("MembershipLock", "membershipLock"),
                "Unlocked",
            ),
            members,
            created: now,
        };
        assert(lobby@ =~= new_lobby(old(self)@, body@, player@, stamp@, now));
        self.drop_owner_lobbies(player.entity_id.as_str());
        proof {
            if old(self)@.wf() {
                lemma_lobby_set(self@, id@, lobby@);
            }
        }
        assoc::put(&mut self.lobbies, id.as_str(), lobby);
        id
    }
}

// Joining

/// Where a lobby with a connection string stands.
pub open spec fn connection_place(
    lobbies: Seq<(Seq<char>, LobbyState)>,
    connection: Seq<char>,
) -> Option<int>
    decreases lobbies.len(),
{
    if lobbies.len() == 0 {
        None
    } else if lobbies[0].1.connection == connection {
        Some(0)
    } else {
        match connection_place(lobbies.drop_first(), connection) {
            Some(i) => Some(i + 1),
            None => None,
        }
    }
}

/// A lobby after an entity joined it: one that is in it already gets its data brought up to date,
/// another is added where there is room. `None` where there is none.
pub open spec fn joined(
    l: LobbyState,
    eid: Seq<char>,
    entity: JsonView,
    data: Seq<(Seq<char>, JsonView)>,
) -> Option<LobbyState> {
    match broker::member_place(l.members, eid) {
        Some(k) => {
            let m = l.members[k];
            let merged = json::with_all(broker::object_field(m, "MemberData"@), data);
            Some(
                LobbyState {
                    members: l.members.update(
                        k,
                        broker::with_member_data(m, broker::filled(merged, eid)),
                    ),
                    ..l
                },
            )
        },
        None => if l.members.len() >= l.max_players {
            None
        } else {
            Some(
                LobbyState {
                    members: l.members.push(member_entry(eid, entity, broker::filled(data, eid))),
                    ..l
                },
            )
        },
    }
}

/// What a request to join leads to.
pub open spec fn join(
    a: AppModel,
    body: JsonView,
    headers: Seq<(Seq<char>, Seq<char>)>,
) -> (AppModel, ReplyModel) {
    let (b, p) = a.acting(body, headers, "anonymous"@);
    let connection = or_text(
        body.text_either("ConnectionString"@, "connectionString"@),
        Seq::empty(),
    );
    let entity = match body.field("MemberEntity"@) {
        Some(e) => e,
        None => broker::entity_view(p),
    };
    let eid = or_text(entity.text_field("Id"@), p.entity_id);
    match connection_place(b.lobbies, connection) {
        None => (
            b,
            broker::error_reply(
                "LobbyNotFound"@,
                if connection.len() > 0 {
                    "Unknown connection string"@
                } else {
                    "Missing connection string"@
                },
            ),
        ),
        Some(i) => {
            let (id, l) = b.lobbies[i];
            match joined(l, eid, entity, broker::object_field(body, "MemberData"@)) {
                None => (
                    b,
                    broker::error_reply("LobbyMemberLimitExceeded"@, "Lobby is full"@),
                ),
                Some(l2) => (
                    AppModel { lobbies: b.lobbies.update(i, (id, l2)), ..b },
                    broker::ok_reply(
                        JsonView::Object(
                            seq![
                                ("LobbyId"@, JsonView::Text(l.id)),
                                ("MaxPlayers"@, json::int_view(l.max_players as int)),
                            ],
                        ),
                    ),
                ),
            }
        },
    }
}

pub proof fn lemma_connection_place(lobbies: Seq<(Seq<char>, LobbyState)>, c: Seq<char>)
    ensures
        match connection_place(lobbies, c) {
            Some(i) => 0 <= i < lobbies.len() && lobbies[i].1.connection == c,
            None => forall|j: int| 0 <= j < lobbies.len() ==> (#[trigger] lobbies[j]).1.connection != c,
        },
    decreases lobbies.len(),
{
    if lobbies.len() > 0 && lobbies[0].1.connection != c {
        let t = lobbies.drop_first();
        lemma_connection_place(t, c);
        assert forall|j: int| 0 < j < lobbies.len() implies lobbies[j] == t[j - 1] by {}
    }
}

proof fn lemma_connection_place_is(lobbies: Seq<(Seq<char>, LobbyState)>, c: Seq<char>, i: int)
    requires
        0 <= i < lobbies.len(),
        lobbies[i].1.connection == c,
        forall|j: int| 0 <= j < i ==> (#[trigger] lobbies[j]).1.connection != c,
    ensures
        connection_place(lobbies, c) == Some(i),
    decreases i,
{
    if i > 0 {
        lemma_connection_place_is(lobbies.drop_first(), c, i - 1);
    }
}

/// A broker stays in order when a lobby is replaced by one in order under the same name.
pub proof fn lemma_lobby_replaced(a: AppModel, i: int, l: LobbyState)
    requires
        a.wf(),
        0 <= i < a.lobbies.len(),
        l.wf(),
        l.id == a.lobbies[i].0,
    ensures
        (AppModel { lobbies: a.lobbies.update(i, (a.lobbies[i].0, l)), ..a }).wf(),
{
}

impl Lobby {
    /// Takes an entity in. False where there is no room.
    pub fn add_member(&mut self, eid: &str, entity: Json, data: &Vec<(String, Json)>) -> (r: bool)
        ensures
            r == (joined(old(self)@, eid@, entity@, json::members(data@)) is Some),
            r ==> joined(old(self)@, eid@, entity@, json::members(data@)) == Some(final(self)@),
            !r ==> final(self)@ == old(self)@,
            old(self)@.wf() ==> final(self)@.wf(),
    {
        let ghost before = self@;
        match self.find_member(eid) {
            Some(k) => {
                assert(before.members[k as int] == self.members@[k as int]@);
                let mut merged = broker::members_or_none(self.members[k].field("MemberData"));
                json::put_all(&mut merged, data);
                broker::fill_member_data(&mut merged, eid);
                let m = broker::set_member_data(self.members[k].copy(), merged);
                self.members.set(k, m);
                assert(self@.members =~= before.members.update(k as int, m@));
                true
            },
            None => {
                if self.max_players <= 0 || self.members.len() as u64 >= self.max_players as u64 {
                    return false;
                }
                let mut own = json::copy_members(data);
                broker::fill_member_data(&mut own, eid);
                let m = make_member(eid, entity, own);
                self.members.push(m);
                assert(self@.members =~= before.members.push(m@));
                true
            },
        }
    }
}

impl App {
    /// Finds a lobby by its connection string.
    fn find_connection(&self, connection: &str) -> (r: Option<usize>)
        ensures
            match r {
                Some(i) => i < self.lobbies@.len() && connection_place(
                    self@.lobbies,
                    connection@,
                ) == Some(i as int),
                None => connection_place(self@.lobbies, connection@) is None,
            },
    {
        let ghost all = self@.lobbies;
        let mut i: usize = 0;
        while i < self.lobbies.len()
            invariant
                i <= self.lobbies@.len(),
                all == assoc::pairs(self.lobbies@),
                forall|j: int| 0 <= j < i ==> (#[trigger] all[j]).1.connection != connection@,
            decreases self.lobbies@.len() - i,
        {
            assert(all[i as int].1 == self.lobbies@[i as int].1@);
            if text::eq(self.lobbies[i].1.connection.as_str(), connection) {
                proof {
                    lemma_connection_place_is(all, connection@, i as int);
                }
                return Some(i);
            }
            i += 1;
        }
        proof {
            lemma_connection_place(all, connection@);
        }
        None
    }

    /// Answers a request to join a lobby.
    pub fn join_lobby(&mut self, body: &Json, headers: &Vec<(String, String)>) -> (r: Reply)
        ensures
            (final(self)@, r@) == join(old(self)@, body@, assoc::pairs(headers@)),
            old(self)@.wf() ==> final(self)@.wf(),
    {
        let player = self.acting_player(body, headers, "anonymous");
        let ghost b = self@;
        proof {
            reveal_strlit("");
            assert(""@ =~= Seq::empty());
        }
        let connection = text_or(body.text_either("ConnectionString", "connectionString"), "");
        let entity = match body.field("MemberEntity") {
            Some(e) => e.copy(),
            None => broker::entity_obj(&player),
        };
        let eid = text_or(entity.text_field("Id"), player.entity_id.as_str());
        let i: usize = match self.find_connection(connection.as_str()) {
            Some(i) => i,
            None => {
                return if connection.as_str().is_empty() {
                    broker::playfab_err("LobbyNotFound", "Missing connection string")
                } else {
                    broker::playfab_err("LobbyNotFound", "Unknown connection string")
                };
            },
        };
        assert(b.lobbies[i as int] == (self.lobbies@[i as int].0@, self.lobbies@[i as int].1@));
        let data = broker::members_or_none(body.field("MemberData"));
        let (id, lobby) = self.lobbies.remove(i);
        let mut lobby = lobby;
        let room = lobby.add_member(eid.as_str(), entity, &data);
        let mut o = broker::start();
        json::add_member(&mut o, "LobbyId", json::string(lobby.id.as_str()));
        json::add_member(&mut o, "MaxPlayers", json::integer_value(lobby.max_players));
        let ghost now = lobby@;
        self.lobbies.insert(i, (id, lobby));
        assert(self@.lobbies =~= b.lobbies.update(i as int, (b.lobbies[i as int].0, now)));
        if !room {
            assert(self@.lobbies =~= b.lobbies);
            return broker::playfab_err("LobbyMemberLimitExceeded", "Lobby is full");
        }
        proof {
            if b.wf() {
                lemma_lobby_replaced(b, i as int, now);
            }
            assert(json::members(o@) =~= seq![
                ("LobbyId"@, JsonView::Text(now.id)),
                ("MaxPlayers"@, json::int_view(now.max_players as int)),
            ]);
        }
        broker::playfab_ok(json::object(o))
    }
}

// Leaving

/// The members that are somebody else.
pub open spec fn others(members: Seq<JsonView>, eid: Seq<char>) -> Seq<JsonView>
    decreases members.len(),
{
    if members.len() == 0 {
        Seq::empty()
    } else if broker::member_id_of(members[0]) == eid {
        others(members.drop_first(), eid)
    } else {
        seq![members[0]] + others(members.drop_first(), eid)
    }
}

/// The members that stay when somebody leaves. Where nobody can be told to have left a lobby of at
/// most one, that one has.
pub open spec fn remaining(members: Seq<JsonView>, who: Option<Seq<char>>) -> Seq<JsonView> {
    let kept = match who {
        Some(eid) => others(members, eid),
        None => members,
    };
    if kept.len() == members.len() && members.len() <= 1 { Seq::empty() } else { kept }
}

/// The owner that a member makes.
pub open spec fn heir(m: JsonView) -> JsonView {
    let entity = m.field("MemberEntity"@);
    if entity is Some && or_text(entity->0.text_field("Id"@), Seq::empty()).len() > 0 {
        entity->0
    } else {
        plain_entity(broker::member_id_of(m))
    }
}

/// The entity of an account of which only the name is known.
pub open spec fn plain_entity(eid: Seq<char>) -> JsonView {
    JsonView::Object(
        seq![
            ("Id"@, JsonView::Text(eid)),
            ("Type"@, JsonView::Text("title_player_account"@)),
        ],
    )
}

/// A lobby after somebody left; `None` where nobody is left in it. When the owner leaves, the
/// lobby passes to its first member under the automatic policy, else it has no owner.
pub open spec fn left(l: LobbyState, who: Option<Seq<char>>) -> Option<LobbyState> {
    let members = remaining(l.members, who);
    if members.len() == 0 {
        None
    } else {
        Some(
            LobbyState {
                members,
                owner: if who != Some(l.owner_id()) {
                    l.owner
                } else if l.owner_migration_policy == 1 {
                    heir(members[0])
                } else {
                    JsonView::Null
                },
                ..l
            },
        )
    }
}

/// The broker after a request to leave.
pub open spec fn leave(
    a: AppModel,
    body: JsonView,
    headers: Seq<(Seq<char>, Seq<char>)>,
) -> AppModel {
    let id = or_text(body.text_either("LobbyId"@, "lobbyId"@), Seq::empty());
    match assoc::place(a.lobbies, id) {
        None => a,
        Some(i) => match left(a.lobbies[i].1, a.requester(body, headers)) {
            Some(l) => AppModel { lobbies: a.lobbies.update(i, (a.lobbies[i].0, l)), ..a },
            None => AppModel { lobbies: a.lobbies.remove(i), ..a },
        },
    }
}

/// The entity of an account of which only the name is known.
fn make_plain_entity(eid: &str) -> (r: Json)
    ensures
        r@ == plain_entity(eid@),
{
    let mut o = broker::start();
    json::add_member(&mut o, "Id", json::string(eid));
    json::add_member(&mut o, "Type", json::string("title_player_account"));
    let r = json::object(o);
    assert(r@->Object_0 =~= plain_entity(eid@)->Object_0);
    r
}

/// The owner that a member makes.
fn make_heir(m: &Json) -> (r: Json)
    ensures
        r@ == heir(m@),
{
    if let Some(e) = m.field("MemberEntity") {
        if let Some(id) = e.text_field("Id") {
            if !id.is_empty() {
                return e.copy();
            }
        }
    }
    make_plain_entity(broker::member_id(m).as_str())
}

/// The members that are somebody else.
fn without_entity(members: &Vec<Json>, eid: &str) -> (r: Vec<Json>)
    ensures
        json::elements(r@) == others(json::elements(members@), eid@),
{
    let ghost all = json::elements(members@);
    let mut out: Vec<Json> = Vec::new();
    let mut i: usize = 0;
    assert(all.skip(0) =~= all);
    assert(json::elements(out@) + others(all.skip(0), eid@) =~= others(all, eid@));
    while i < members.len()
        invariant
            i <= members@.len(),
            all == json::elements(members@),
            json::elements(out@) + others(all.skip(i as int), eid@) == others(all, eid@),
        decreases members@.len() - i,
    {
        let ghost sofar = json::elements(out@);
        assert(all.skip(i as int)[0] == members@[i as int]@);
        assert(all.skip(i as int).drop_first() =~= all.skip(i + 1));
        if !text::eq(broker::member_id(&members[i]).as_str(), eid) {
            out.push(members[i].copy());
            assert(json::elements(out@) =~= sofar.push(all[i as int]));
            assert(json::elements(out@) + others(all.skip(i + 1), eid@) =~= sofar + others(
                all.skip(i as int),
                eid@,
            ));
        }
        i += 1;
    }
    assert(all.skip(i as int) =~= Seq::empty());
    assert(json::elements(out@) + Seq::<JsonView>::empty() =~= json::elements(out@));
    out
}

proof fn lemma_others_len(members: Seq<JsonView>, eid: Seq<char>)
    ensures
        others(members, eid).len() <= members.len(),
        forall|i: int|
            0 <= i < others(members, eid).len() ==> broker::member_id_of(
                #[trigger] others(members, eid)[i],
            ) != eid,
    decreases members.len(),
{
    if members.len() > 0 {
        let t = members.drop_first();
        lemma_others_len(t, eid);
        if broker::member_id_of(members[0]) != eid {
            let o = others(members, eid);
            assert forall|i: int| 0 <= i < o.len() implies broker::member_id_of(#[trigger] o[i])
                != eid by {
                if i > 0 {
                    assert(o[i] == others(t, eid)[i - 1]);
                }
            }
        }
    }
}

/// Who left a lobby is not in it any more.
pub proof fn leaver_is_gone(l: LobbyState, eid: Seq<char>)
    ensures
        left(l, Some(eid)) is Some ==> !broker::has_member(left(l, Some(eid))->0.members, eid),
{
    lemma_others_len(l.members, eid);
}

impl Lobby {
    /// Takes an entity out. False where nobody is left.
    pub fn remove_member(&mut self, who: &Option<String>) -> (r: bool)
        ensures
            r == (left(old(self)@, broker::opt_view(*who)) is Some),
            r ==> left(old(self)@, broker::opt_view(*who)) == Some(final(self)@),
            old(self)@.wf() && r ==> final(self)@.wf(),
    {
        let ghost before = self@;
        let owner = self.owner_id();
        let count: usize = self.members.len();
        let mut owner_left = false;
        if let Some(eid) = who {
            owner_left = text::eq(eid.as_str(), owner.as_str());
            proof {
                lemma_others_len(before.members, eid@);
            }
            self.members = without_entity(&self.members, eid.as_str());
        }
        if self.members.len() == count && count <= 1 {
            return false;
        }
        if self.members.len() == 0 {
            return false;
        }
        if owner_left {
            self.owner = if self.owner_migration_policy == 1 {
                assert(self@.members[0] == self.members@[0]@);
                make_heir(&self.members[0])
            } else {
                Json::Null
            };
        }
        assert(self@.members =~= remaining(before.members, broker::opt_view(*who)));
        true
    }
}

impl App {
    /// Lets the asking entity leave a lobby.
    pub fn leave_lobby(&mut self, body: &Json, headers: &Vec<(String, String)>)
        ensures
            final(self)@ == leave(old(self)@, body@, assoc::pairs(headers@)),
            old(self)@.wf() ==> final(self)@.wf(),
    {
        proof {
            reveal_strlit("");
            assert(""@ =~= Seq::empty());
        }
        let ghost a = self@;
        let id = text_or(body.text_either("LobbyId", "lobbyId"), "");
        let i: usize = match assoc::find(&self.lobbies, id.as_str()) {
            Some(i) => i,
            None => {
                return;
            },
        };
        assert(a.lobbies[i as int] == (self.lobbies@[i as int].0@, self.lobbies@[i as int].1@));
        let who = self.request_entity_id(body, headers);
        let (key, lobby) = self.lobbies.remove(i);
        let mut lobby = lobby;
        let open = lobby.remove_member(&who);
        let ghost now = lobby@;
        if open {
            self.lobbies.insert(i, (key, lobby));
            assert(self@.lobbies =~= a.lobbies.update(i as int, (a.lobbies[i as int].0, now)));
            proof {
                if a.wf() {
                    lemma_lobby_replaced(a, i as int, now);
                }
            }
        } else {
            assert(self@.lobbies =~= a.lobbies.remove(i as int));
            proof {
                if a.wf() {
                    assert forall|j: int| 0 <= j < self@.lobbies.len() implies #[trigger] self@.lobbies[j]
                        == a.lobbies[if j < i {
                        j
                    } else {
                        j + 1
                    }] by {}
                }
            }
        }
    }
}

// Changing

/// The texts of an array.
pub open spec fn texts_of(v: Seq<JsonView>) -> Seq<Seq<char>>
    decreases v.len(),
{
    if v.len() == 0 {
        Seq::empty()
    } else {
        match v[0] {
            JsonView::Text(t) => seq![t] + texts_of(v.drop_first()),
            _ => texts_of(v.drop_first()),
        }
    }
}

/// The texts of the array under the first of two names that holds an array.
pub open spec fn text_list(body: JsonView, a: Seq<char>, b: Seq<char>) -> Seq<Seq<char>> {
    match body.field(a) {
        Some(JsonView::Array(v)) => texts_of(v),
        _ => match body.field(b) {
            Some(JsonView::Array(v)) => texts_of(v),
            _ => Seq::empty(),
        },
    }
}

/// A member entry without some of its data.
pub open spec fn without_member_data(m: JsonView, keys: Seq<Seq<char>>) -> JsonView {
    match m.field("MemberData"@) {
        Some(JsonView::Object(d)) => broker::with_member_data(m, json::without_all(d, keys)),
        _ => m,
    }
}

/// A member entry with more data, completed.
pub open spec fn with_more_member_data(
    m: JsonView,
    more: Seq<(Seq<char>, JsonView)>,
    eid: Seq<char>,
) -> JsonView {
    broker::with_member_data(
        m,
        broker::filled(json::with_all(broker::object_field(m, "MemberData"@), more), eid),
    )
}

/// The members, with the entry of one entity changed where it is among them.
pub open spec fn changing_member(
    members: Seq<JsonView>,
    who: Option<Seq<char>>,
    f: spec_fn(JsonView) -> JsonView,
) -> Seq<JsonView> {
    match who {
        Some(eid) => match broker::member_place(members, eid) {
            Some(k) => members.update(k, f(members[k])),
            None => members,
        },
        None => members,
    }
}

/// A member entry with its entity and its data set.
pub open spec fn with_identity(
    m: JsonView,
    entity: JsonView,
    data: Seq<(Seq<char>, JsonView)>,
) -> JsonView {
    match m {
        JsonView::Object(o) => JsonView::Object(
            assoc::with(
                assoc::with(o, "MemberData"@, JsonView::Object(data)),
                "MemberEntity"@,
                entity,
            ),
        ),
        _ => m,
    }
}

/// A lobby after it was told of one member: an entry of that entity is brought up to date, another
/// is added where there is room. An entry that names nobody changes nothing.
pub open spec fn told_of(l: LobbyState, m: JsonView) -> LobbyState {
    let eid = broker::member_id_of(m);
    let data = broker::filled(broker::object_field(m, "MemberData"@), eid);
    let entity = match m.field("MemberEntity"@) {
        Some(e) => e,
        None => plain_entity(eid),
    };
    if eid.len() == 0 {
        l
    } else {
        match broker::member_place(l.members, eid) {
            Some(k) => LobbyState {
                members: l.members.update(k, with_identity(l.members[k], entity, data)),
                ..l
            },
            None => if l.members.len() < l.max_players {
                LobbyState { members: l.members.push(member_entry(eid, entity, data)), ..l }
            } else {
                l
            },
        }
    }
}

/// A lobby after it was told of members one after the other.
pub open spec fn told_of_all(l: LobbyState, v: Seq<JsonView>) -> LobbyState
    decreases v.len(),
{
    if v.len() == 0 { l } else { told_of_all(told_of(l, v[0]), v.drop_first()) }
}

/// A maximum as asked for, but not below the number of members.
pub open spec fn new_maximum(l: LobbyState, asked: Option<int>) -> i64 {
    match asked {
        Some(n) => if broker::clamped(n) < l.members.len() {
            l.members.len() as i64
        } else {
            broker::clamped(n)
        },
        None => l.max_players,
    }
}

/// A lobby after an update. Deletions come before settings. Member data is that of the entity that
/// the body names, else of the one that asks.
pub open spec fn updated(l: LobbyState, body: JsonView, updater: Option<Seq<char>>) -> LobbyState {
    let target = if body.text_field("MemberEntity"@) is Some {
        body.text_field("MemberEntity"@)
    } else {
        updater
    };
    let gone = text_list(body, "MemberDataToDelete"@, "memberDataToDelete"@);
    let cut = changing_member(
        l.members,
        if gone.len() == 0 { None } else { target },
        |m: JsonView| without_member_data(m, gone),
    );
    let set = match body.field("MemberData"@) {
        Some(JsonView::Object(more)) => changing_member(
            cut,
            target,
            |m: JsonView| with_more_member_data(m, more, target->0),
        ),
        _ => cut,
    };
    let base = LobbyState {
        search_data: json::with_all(
            json::without_all(
                l.search_data,
                text_list(body, "SearchDataToDelete"@, "searchDataToDelete"@),
            ),
            members_of(body.either("SearchData"@, "searchData"@)),
        ),
        lobby_data: json::with_all(
            json::without_all(
                l.lobby_data,
                text_list(body, "LobbyDataToDelete"@, "lobbyDataToDelete"@),
            ),
            members_of(body.either("LobbyData"@, "lobbyData"@)),
        ),
        membership_lock: or_text(
            body.text_either("MembershipLock"@, "membershipLock"@),
            l.membership_lock,
        ),
        max_players: new_maximum(l, body.integer_either("MaxPlayers"@, "maxPlayers"@)),
        access_policy: or_text(
            body.text_either("AccessPolicy"@, "accessPolicy"@),
            l.access_policy,
        ),
        owner: match body.either("Owner"@, "owner"@) {
            Some(o) => o,
            None => l.owner,
        },
        members: set,
        ..l
    };
    match body.field("Members"@) {
        Some(JsonView::Array(v)) => told_of_all(base, v),
        _ => base,
    }
}

/// The broker after a request to update a lobby.
pub open spec fn update(
    a: AppModel,
    body: JsonView,
    headers: Seq<(Seq<char>, Seq<char>)>,
) -> AppModel {
    let id = or_text(body.text_either("LobbyId"@, "lobbyId"@), Seq::empty());
    match assoc::place(a.lobbies, id) {
        None => a,
        Some(i) => AppModel {
            lobbies: a.lobbies.update(
                i,
                (a.lobbies[i].0, updated(a.lobbies[i].1, body, a.requester(body, headers))),
            ),
            ..a
        },
    }
}

/// The texts of an array.
fn collect_texts(v: &Vec<Json>) -> (r: Vec<String>)
    ensures
        text::views(r@) == texts_of(json::elements(v@)),
{
    let ghost all = json::elements(v@);
    let mut out: Vec<String> = Vec::new();
    let mut i: usize = 0;
    assert(all.skip(0) =~= all);
    assert(text::views(out@) + texts_of(all.skip(0)) =~= texts_of(all));
    while i < v.len()
        invariant
            i <= v@.len(),
            all == json::elements(v@),
            text::views(out@) + texts_of(all.skip(i as int)) == texts_of(all),
        decreases v@.len() - i,
    {
        let ghost sofar = text::views(out@);
        assert(all.skip(i as int)[0] == v@[i as int]@);
        assert(all.skip(i as int).drop_first() =~= all.skip(i + 1));
        if let Some(t) = v[i].text() {
            out.push(t.to_owned());
            assert(text::views(out@) =~= sofar.push(t@));
            assert(text::views(out@) + texts_of(all.skip(i + 1)) =~= sofar + texts_of(
                all.skip(i as int),
            ));
        }
        i += 1;
    }
    assert(all.skip(i as int) =~= Seq::empty());
    assert(text::views(out@) + Seq::<Seq<char>>::empty() =~= text::views(out@));
    out
}

/// The texts of the array under the first of two names that holds an array.
pub fn json_str_array(body: &Json, a: &str, b: &str) -> (r: Vec<String>)
    ensures
        text::views(r@) == text_list(body@, a@, b@),
{
    if let Some(j) = body.field(a) {
        if let Some(v) = j.elements() {
            return collect_texts(v);
        }
    }
    if let Some(j) = body.field(b) {
        if let Some(v) = j.elements() {
            return collect_texts(v);
        }
    }
    let r: Vec<String> = Vec::new();
    assert(text::views(r@) =~= Seq::empty());
    r
}

/// Sets entity and data of a member entry.
fn set_identity(m: Json, entity: Json, data: Vec<(String, Json)>) -> (r: Json)
    ensures
        r@ == with_identity(m@, entity@, json::members(data@)),
{
    match m {
        Json::Object(v) => {
            let mut v = v;
            assert(m@->Object_0 =~= json::members(v@));
            assoc::put(&mut v, "MemberData", json::object(data));
            assoc::put(&mut v, "MemberEntity", entity);
            json::object(v)
        },
        _ => m,
    }
}

proof fn lemma_told_of_all(l: LobbyState, v: Seq<JsonView>)
    requires
        l.wf(),
    ensures
        told_of_all(l, v).wf(),
        told_of_all(l, v).id == l.id,
    decreases v.len(),
{
    if v.len() > 0 {
        broker::lemma_member_place(l.members, broker::member_id_of(v[0]));
        lemma_told_of_all(told_of(l, v[0]), v.drop_first());
    }
}

impl Lobby {
    /// Takes in what is said of one member.
    fn tell_of(&mut self, m: &Json)
        ensures
            final(self)@ == told_of(old(self)@, m@),
    {
        let ghost before = self@;
        let eid = broker::member_id(m);
        if eid.as_str().is_empty() {
            return;
        }
        let mut data = broker::members_or_none(m.field("MemberData"));
        broker::fill_member_data(&mut data, eid.as_str());
        let entity = match m.field("MemberEntity") {
            Some(e) => e.copy(),
            None => make_plain_entity(eid.as_str()),
        };
        match self.find_member(eid.as_str()) {
            Some(k) => {
                assert(before.members[k as int] == self.members@[k as int]@);
                let e = set_identity(self.members[k].copy(), entity, data);
                self.members.set(k, e);
                assert(self@.members =~= before.members.update(k as int, e@));
            },
            None => {
                if self.max_players > 0 && (self.members.len() as u64) < self.max_players as u64 {
                    let e = make_member(eid.as_str(), entity, data);
                    self.members.push(e);
                    assert(self@.members =~= before.members.push(e@));
                }
            },
        }
    }

    /// Takes in what is said of several members.
    fn tell_of_all(&mut self, v: &Vec<Json>)
        ensures
            final(self)@ == told_of_all(old(self)@, json::elements(v@)),
    {
        let ghost all = json::elements(v@);
        let mut i: usize = 0;
        assert(all.skip(0) =~= all);
        while i < v.len()
            invariant
                i <= v@.len(),
                all == json::elements(v@),
                told_of_all(self@, all.skip(i as int)) == told_of_all(old(self)@, all),
            decreases v@.len() - i,
        {
            assert(all.skip(i as int)[0] == v@[i as int]@);
            assert(all.skip(i as int).drop_first() =~= all.skip(i + 1));
            self.tell_of(&v[i]);
            i += 1;
        }
        assert(all.skip(i as int) =~= Seq::empty());
    }

    /// Removes data of the target's member entry.
    fn cut_member_data(&mut self, target: &Option<String>, gone: &Vec<String>)
        ensures
            final(self)@ == (LobbyState {
                members: changing_member(
                    old(self)@.members,
                    if gone@.len() == 0 { None } else { broker::opt_view(*target) },
                    |m: JsonView| without_member_data(m, text::views(gone@)),
                ),
                ..old(self)@
            }),
            final(self)@.members.len() == old(self)@.members.len(),
    {
        let ghost before = self@;
        if gone.len() == 0 {
            return;
        }
        if let Some(eid) = target {
            if let Some(k) = self.find_member(eid.as_str()) {
                assert(before.members[k as int] == self.members@[k as int]@);
                let mut changed: Option<Vec<(String, Json)>> = None;
                if let Some(j) = self.members[k].field("MemberData") {
                    if let Some(d) = j.members() {
                        let mut d = json::copy_members(d);
                        json::drop_all(&mut d, gone);
                        changed = Some(d);
                    }
                }
                if let Some(d) = changed {
                    let m = broker::set_member_data(self.members[k].copy(), d);
                    self.members.set(k, m);
                    assert(self@.members =~= before.members.update(k as int, m@));
                } else {
                    assert(self@.members =~= before.members.update(
                        k as int,
                        before.members[k as int],
                    ));
                }
            }
        }
    }

    /// Sets data of the target's member entry.
    fn set_member_data_of(&mut self, target: &Option<String>, more: &Vec<(String, Json)>)
        ensures
            final(self)@ == (LobbyState {
                members: changing_member(
                    old(self)@.members,
                    broker::opt_view(*target),
                    |m: JsonView|
                        with_more_member_data(
                            m,
                            json::members(more@),
                            broker::opt_view(*target)->0,
                        ),
                ),
                ..old(self)@
            }),
            final(self)@.members.len() == old(self)@.members.len(),
    {
        let ghost before = self@;
        if let Some(eid) = target {
            if let Some(k) = self.find_member(eid.as_str()) {
                assert(before.members[k as int] == self.members@[k as int]@);
                let mut d = broker::members_or_none(self.members[k].field("MemberData"));
                json::put_all(&mut d, more);
                broker::fill_member_data(&mut d, eid.as_str());
                let m = broker::set_member_data(self.members[k].copy(), d);
                self.members.set(k, m);
                assert(self@.members =~= before.members.update(k as int, m@));
            }
        }
    }

    /// Applies an update.
    pub fn apply_update(&mut self, body: &Json, updater: Option<String>)
        requires
            old(self)@.wf(),
        ensures
            final(self)@ == updated(old(self)@, body@, broker::opt_view(updater)),
            final(self)@.wf(),
            final(self)@.id == old(self)@.id,
    {
        let ghost l = self@;
        let target: Option<String> = match body.text_field("MemberEntity") {
            Some(t) => Some(t.to_owned()),
            None => updater,
        };
        json::drop_all(
            &mut self.search_data,
            &json_str_array(body, "SearchDataToDelete", "searchDataToDelete"),
        );
        json::drop_all(
            &mut self.lobby_data,
            &json_str_array(body, "LobbyDataToDelete", "lobbyDataToDelete"),
        );
        if let Some(lock) = body.text_either("MembershipLock", "membershipLock") {
            self.membership_lock = lock.to_owned();
        }
        if let Some(mx) = body.integer_either("MaxPlayers", "maxPlayers") {
            let n: i64 = broker::clamp_max_players(mx);
            assert(l.members.len() == self.members@.len());
            let count: i64 = self.members.len() as i64;
            self.max_players = if n < count {
                count
            } else {
                n
            };
        }
        if let Some(policy) = body.text_either("AccessPolicy", "accessPolicy") {
            self.access_policy = policy.to_owned();
        }
        if let Some(o) = body.either("Owner", "owner") {
            self.owner = o.copy();
        }
        self.cut_member_data(
            &target,
            &json_str_array(body, "MemberDataToDelete", "memberDataToDelete"),
        );
        json::put_all(
            &mut self.lobby_data,
            &broker::members_or_none(body.either("LobbyData", "lobbyData")),
        );
        json::put_all(
            &mut self.search_data,
            &broker::members_or_none(body.either("SearchData", "searchData")),
        );
        if let Some(j) = body.field("MemberData") {
            if let Some(more) = j.members() {
                self.set_member_data_of(&target, more);
            }
        }
        let ghost base = self@;
        proof {
            let who = if body@.text_field("MemberEntity"@) is Some {
                body@.text_field("MemberEntity"@)
            } else {
                broker::opt_view(updater)
            };
            assert(who == broker::opt_view(target));
        }
        if let Some(j) = body.field("Members") {
            if let Some(v) = j.elements() {
                proof {
                    lemma_told_of_all(base, json::elements(v@));
                }
                self.tell_of_all(v);
            }
        }
    }
}

impl App {
    /// Updates a lobby as the asking entity wants it.
    pub fn update_lobby(&mut self, body: &Json, headers: &Vec<(String, String)>)
        requires
            old(self)@.wf(),
        ensures
            final(self)@ == update(old(self)@, body@, assoc::pairs(headers@)),
            final(self)@.wf(),
    {
        proof {
            reveal_strlit("");
            assert(""@ =~= Seq::empty());
        }
        let ghost a = self@;
        let id = text_or(body.text_either("LobbyId", "lobbyId"), "");
        let updater = self.request_entity_id(body, headers);
        let i: usize = match assoc::find(&self.lobbies, id.as_str()) {
            Some(i) => i,
            None => {
                return;
            },
        };
        assert(a.lobbies[i as int] == (self.lobbies@[i as int].0@, self.lobbies@[i as int].1@));
        let (key, lobby) = self.lobbies.remove(i);
        let mut lobby = lobby;
        lobby.apply_update(body, updater);
        let ghost now = lobby@;
        self.lobbies.insert(i, (key, lobby));
        assert(self@.lobbies =~= a.lobbies.update(i as int, (a.lobbies[i as int].0, now)));
        proof {
            lemma_lobby_replaced(a, i as int, now);
        }
    }
}

// Showing

/// What is shown of a lobby to those in it.
pub open spec fn shown(l: LobbyState) -> JsonView {
    JsonView::Object(
        seq![
            ("LobbyId"@, JsonView::Text(l.id)),
            ("ConnectionString"@, JsonView::Text(l.connection)),
            ("Owner"@, l.owner),
            ("OwnerMigrationPolicy"@, json::int_view(l.owner_migration_policy as int)),
            ("MaxPlayers"@, json::int_view(l.max_players as int)),
            ("CurrentPlayers"@, json::int_view(l.members.len() as int)),
            ("MembershipLock"@, JsonView::Text(l.membership_lock)),
            ("AccessPolicy"@, JsonView::Text(l.access_policy)),
            ("LobbyData"@, JsonView::Object(l.lobby_data)),
            ("SearchData"@, JsonView::Object(l.search_data)),
            (
                "Members"@,
                JsonView::Array(
                    l.members.map_values(|m: JsonView| broker::member_for_client(m)),
                ),
            ),
        ],
    )
}

/// What a request to see a lobby is answered with.
pub open spec fn get(a: AppModel, body: JsonView) -> ReplyModel {
    let id = or_text(body.text_either("LobbyId"@, "lobbyId"@), Seq::empty());
    match assoc::lookup(a.lobbies, id) {
        Some(l) => broker::ok_reply(shown(l)),
        None => broker::error_reply("LobbyNotFound"@, "Lobby not found"@),
    }
}

/// What is shown of a lobby to those in it.
pub fn lobby_public(l: &Lobby) -> (r: Json)
    requires
        l@.wf(),
    ensures
        r@ == shown(l@),
{
    let mut o = broker::start();
    json::add_member(&mut o, "LobbyId", json::string(l.id.as_str()));
    json::add_member(&mut o, "ConnectionString", json::string(l.connection.as_str()));
    json::add_member(&mut o, "Owner", l.owner.copy());
    json::add_member(
        &mut o,
        "OwnerMigrationPolicy",
        json::integer_value(l.owner_migration_policy),
    );
    json::add_member(&mut o, "MaxPlayers", json::integer_value(l.max_players));
    assert(l@.members.len() == l.members@.len());
    json::add_member(&mut o, "CurrentPlayers", json::integer_value(l.members.len() as i64));
    json::add_member(&mut o, "MembershipLock", json::string(l.membership_lock.as_str()));
    json::add_member(&mut o, "AccessPolicy", json::string(l.access_policy.as_str()));
    json::add_member(&mut o, "LobbyData", json::object(json::copy_members(&l.lobby_data)));
    json::add_member(&mut o, "SearchData", json::object(json::copy_members(&l.search_data)));
    json::add_member(&mut o, "Members", json::array(broker::members_for_client(&l.members)));
    let r = json::object(o);
    assert(r@->Object_0 =~= shown(l@)->Object_0);
    r
}

impl App {
    /// Answers a request to see a lobby.
    pub fn get_lobby(&self, body: &Json) -> (r: Reply)
        requires
            self@.wf(),
        ensures
            r@ == get(self@, body@),
    {
        proof {
            reveal_strlit("");
            assert(""@ =~= Seq::empty());
        }
        let id = text_or(body.text_either("LobbyId", "lobbyId"), "");
        match assoc::find(&self.lobbies, id.as_str()) {
            Some(i) => {
                assert(self@.lobbies[i as int].1 == self.lobbies@[i as int].1@);
                broker::playfab_ok(lobby_public(&self.lobbies[i].1))
            },
            None => broker::playfab_err("LobbyNotFound", "Lobby not found"),
        }
    }
}

}
