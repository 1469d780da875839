//! What a lobby is after each kind of request, told by the request and by what it was before.
use crate::assoc;
use crate::broker;
use crate::broker::{AppModel, LobbyState, PlayerModel};
use crate::json;
use crate::json::JsonView;
use crate::lobbies;
use crate::text;
use vstd::prelude::*;

verus! {

// What a request says

/// The members of the object that a request gives under the first of two names that it has.
pub open spec fn given(body: JsonView, a: Seq<char>, b: Seq<char>) -> Seq<(Seq<char>, JsonView)> {
    match body.either(a, b) {
        Some(JsonView::Object(o)) => o,
        _ => Seq::empty(),
    }
}

/// A request lists a name in the array under the first of two names that holds an array.
pub open spec fn lists(body: JsonView, a: Seq<char>, b: Seq<char>, key: Seq<char>) -> bool {
    match body.field(a) {
        Some(JsonView::Array(v)) => v.contains(JsonView::Text(key)),
        _ => match body.field(b) {
            Some(JsonView::Array(v)) => v.contains(JsonView::Text(key)),
            _ => false,
        },
    }
}

/// A request lists members one by one.
pub open spec fn lists_members(body: JsonView) -> bool {
    match body.field("Members"@) {
        Some(JsonView::Array(_)) => true,
        _ => false,
    }
}

proof fn lemma_texts_of(v: Seq<JsonView>, key: Seq<char>)
    ensures
        lobbies::texts_of(v).contains(key) <==> v.contains(JsonView::Text(key)),
    decreases v.len(),
{
    let all = lobbies::texts_of(v);
    if v.len() > 0 {
        let t = v.drop_first();
        let rest = lobbies::texts_of(t);
        lemma_texts_of(t, key);
        if v.contains(JsonView::Text(key)) {
            let i = choose|i: int| 0 <= i < v.len() && v[i] == JsonView::Text(key);
            if i > 0 {
                assert(t[i - 1] == v[i]);
                assert(rest.contains(key));
                let k = choose|k: int| 0 <= k < rest.len() && rest[k] == key;
                assert(all[k + all.len() - rest.len()] == key);
            } else {
                assert(all[0] == key);
            }
        }
        if all.contains(key) {
            let k = choose|k: int| 0 <= k < all.len() && all[k] == key;
            if all.len() == rest.len() || k > 0 {
                assert(rest[k - (all.len() - rest.len())] == key);
                assert(t.contains(JsonView::Text(key)));
                let i = choose|i: int| 0 <= i < t.len() && t[i] == JsonView::Text(key);
                assert(v[i + 1] == JsonView::Text(key));
            } else {
                assert(v[0] == JsonView::Text(key));
            }
        }
    }
}

proof fn lemma_lists(body: JsonView, a: Seq<char>, b: Seq<char>, key: Seq<char>)
    ensures
        lobbies::text_list(body, a, b).contains(key) <==> lists(body, a, b, key),
{
    if let Some(JsonView::Array(v)) = body.field(a) {
        lemma_texts_of(v, key);
    }
    if let Some(JsonView::Array(v)) = body.field(b) {
        lemma_texts_of(v, key);
    }
}

// Updating

proof fn lemma_told_only_members(l: LobbyState, v: Seq<JsonView>)
    ensures
        ({
            let t = lobbies::told_of_all(l, v);
            t == LobbyState { members: t.members, ..l }
        }),
    decreases v.len(),
{
    if v.len() > 0 {
        lemma_told_only_members(lobbies::told_of(l, v[0]), v.drop_first());
    }
}

/// An update leaves under each name of a search property the last value that it gives for it; a
/// name that it only lists for removal is gone, and every other one has the value that it had.
pub proof fn search_data_is_updated(
    l: LobbyState,
    body: JsonView,
    who: Option<Seq<char>>,
    key: Seq<char>,
)
    requires
        assoc::distinct(l.search_data),
    ensures
        ({
            let after = lobbies::updated(l, body, who).search_data;
            let told = json::last_of(given(body, "SearchData"@, "searchData"@), key);
            let gone = lists(body, "SearchDataToDelete"@, "searchDataToDelete"@, key);
            &&& told is Some ==> assoc::lookup(after, key) == told
            &&& told is None && gone ==> assoc::lookup(after, key) is None
            &&& told is None && !gone ==> assoc::lookup(after, key) == assoc::lookup(
                l.search_data,
                key,
            )
            &&& assoc::distinct(after)
        }),
{
    let gone = lobbies::text_list(body, "SearchDataToDelete"@, "searchDataToDelete"@);
    lemma_lists(body, "SearchDataToDelete"@, "searchDataToDelete"@, key);
    json::all_are_removed(l.search_data, gone, key);
    json::all_are_set(
        json::without_all(l.search_data, gone),
        given(body, "SearchData"@, "searchData"@),
        key,
    );
    lemma_update_base(l, body, who);
}

/// An update leaves under each name of a lobby property the last value that it gives for it; a
/// name that it only lists for removal is gone, and every other one has the value that it had.
pub proof fn lobby_data_is_updated(
    l: LobbyState,
    body: JsonView,
    who: Option<Seq<char>>,
    key: Seq<char>,
)
    requires
        assoc::distinct(l.lobby_data),
    ensures
        ({
            let after = lobbies::updated(l, body, who).lobby_data;
            let told = json::last_of(given(body, "LobbyData"@, "lobbyData"@), key);
            let gone = lists(body, "LobbyDataToDelete"@, "lobbyDataToDelete"@, key);
            &&& told is Some ==> assoc::lookup(after, key) == told
            &&& told is None && gone ==> assoc::lookup(after, key) is None
            &&& told is None && !gone ==> assoc::lookup(after, key) == assoc::lookup(
                l.lobby_data,
                key,
            )
            &&& assoc::distinct(after)
        }),
{
    let gone = lobbies::text_list(body, "LobbyDataToDelete"@, "lobbyDataToDelete"@);
    lemma_lists(body, "LobbyDataToDelete"@, "lobbyDataToDelete"@, key);
    json::all_are_removed(l.lobby_data, gone, key);
    json::all_are_set(
        json::without_all(l.lobby_data, gone),
        given(body, "LobbyData"@, "lobbyData"@),
        key,
    );
    lemma_update_base(l, body, who);
}

/// What an update makes of a lobby apart from its members.
proof fn lemma_update_base(l: LobbyState, body: JsonView, who: Option<Seq<char>>)
    ensures
        ({
            let u = lobbies::updated(l, body, who);
            &&& u.id == l.id && u.connection == l.connection && u.created == l.created
            &&& u.owner_migration_policy == l.owner_migration_policy
            &&& u.search_data == json::with_all(
                json::without_all(
                    l.search_data,
                    lobbies::text_list(body, "SearchDataToDelete"@, "searchDataToDelete"@),
                ),
                given(body, "SearchData"@, "searchData"@),
            )
            &&& u.lobby_data == json::with_all(
                json::without_all(
                    l.lobby_data,
                    lobbies::text_list(body, "LobbyDataToDelete"@, "lobbyDataToDelete"@),
                ),
                given(body, "LobbyData"@, "lobbyData"@),
            )
        }),
{
    if let Some(JsonView::Array(v)) = body.field("Members"@) {
        assert forall|m: LobbyState|
            (#[trigger] lobbies::told_of_all(m, v)) == (LobbyState {
                members: lobbies::told_of_all(m, v).members,
                ..m
            }) by {
            lemma_told_only_members(m, v);
        }
    }
}

/// An update sets the lock, the access policy and the owner that it gives and leaves those that it
/// does not give. What names the lobby and what happens when its owner leaves never change.
pub proof fn settings_are_updated(l: LobbyState, body: JsonView, who: Option<Seq<char>>)
    ensures
        ({
            let u = lobbies::updated(l, body, who);
            let lock = body.text_either("MembershipLock"@, "membershipLock"@);
            let access = body.text_either("AccessPolicy"@, "accessPolicy"@);
            let owner = body.either("Owner"@, "owner"@);
            &&& u.membership_lock == (if lock is Some { lock->0 } else { l.membership_lock })
            &&& u.access_policy == (if access is Some { access->0 } else { l.access_policy })
            &&& u.owner == (if owner is Some { owner->0 } else { l.owner })
            &&& u.id == l.id && u.connection == l.connection && u.created == l.created
            &&& u.owner_migration_policy == l.owner_migration_policy
        }),
{
    lemma_update_base(l, body, who);
    if let Some(JsonView::Array(v)) = body.field("Members"@) {
        assert forall|m: LobbyState|
            (#[trigger] lobbies::told_of_all(m, v)) == (LobbyState {
                members: lobbies::told_of_all(m, v).members,
                ..m
            }) by {
            lemma_told_only_members(m, v);
        }
    }
}

/// An update sets the number of players that it asks for wherever that is allowed and leaves room
/// for those who are in; it never shuts out who is in, and without a wish the number stays.
pub proof fn maximum_is_updated(l: LobbyState, body: JsonView, who: Option<Seq<char>>)
    requires
        l.wf(),
    ensures
        ({
            let u = lobbies::updated(l, body, who);
            let asked = body.integer_either("MaxPlayers"@, "maxPlayers"@);
            &&& asked is None ==> u.max_players == l.max_players
            &&& asked is Some && broker::MIN_PLAYERS <= asked->0 <= broker::MAX_PLAYERS_CEILING
                && l.members.len() <= asked->0 ==> u.max_players == asked->0
            &&& asked is Some && asked->0 < l.members.len() && l.members.len()
                >= broker::MIN_PLAYERS ==> u.max_players == l.members.len()
            &&& asked is Some && asked->0 > broker::MAX_PLAYERS_CEILING ==> u.max_players
                == broker::MAX_PLAYERS_CEILING
            &&& l.members.len() <= u.max_players
        }),
{
    if let Some(JsonView::Array(v)) = body.field("Members"@) {
        assert forall|m: LobbyState|
            (#[trigger] lobbies::told_of_all(m, v)) == (LobbyState {
                members: lobbies::told_of_all(m, v).members,
                ..m
            }) by {
            lemma_told_only_members(m, v);
        }
    }
}

// Members' data

/// The names under which every member is described.
pub open spec fn is_description(key: Seq<char>) -> bool {
    key == "member_platform"@ || key == "member_platform_account_id"@ || key
        == "member_platform_user_name"@
}

pub proof fn lemma_description_names()
    ensures
        "member_platform"@ != "member_platform_account_id"@,
        "member_platform"@ != "member_platform_user_name"@,
        "member_platform_account_id"@ != "member_platform_user_name"@,
{
    reveal_strlit("member_platform");
    reveal_strlit("member_platform_account_id");
    reveal_strlit("member_platform_user_name");
    assert("member_platform"@.len() == 15);
    assert("member_platform_account_id"@.len() == 26);
    assert("member_platform_user_name"@.len() == 25);
}

/// The data of every member has a platform that is a text, an account in decimal digits and a
/// name. Of these, what was given as such stays; all other data stays as it was given.
pub proof fn member_is_described(
    o: Seq<(Seq<char>, JsonView)>,
    eid: Seq<char>,
    key: Seq<char>,
    t: Seq<char>,
)
    ensures
        ({
            let f = broker::filled(o, eid);
            let platform = assoc::lookup(f, "member_platform"@);
            let account = assoc::lookup(f, "member_platform_account_id"@);
            let name = assoc::lookup(f, "member_platform_user_name"@);
            &&& !is_description(key) ==> assoc::lookup(f, key) == assoc::lookup(o, key)
            &&& platform matches Some(JsonView::Text(p)) && p.len() > 0 && p != "1"@
            &&& account matches Some(JsonView::Text(d)) && text::is_number(d)
            &&& name is Some
            &&& assoc::lookup(o, "member_platform"@) == Some(JsonView::Text(t)) && t.len() > 0 && t
                != "1"@ ==> platform == Some(JsonView::Text(t))
            &&& assoc::lookup(o, "member_platform_account_id"@) == Some(JsonView::Text(t))
                && text::is_number(t) ==> account == Some(JsonView::Text(t))
            &&& assoc::lookup(o, "member_platform_account_id"@) is None && text::is_number(eid)
                ==> account == Some(JsonView::Text(eid))
            &&& assoc::lookup(o, "member_platform_user_name"@) == Some(JsonView::Text(t)) ==> name
                == Some(JsonView::Text(t))
            &&& assoc::lookup(o, "member_platform_user_name"@) is None ==> name == Some(
                JsonView::Text("LAN"@),
            )
            &&& assoc::distinct(o) ==> assoc::distinct(f)
        }),
{
    lemma_description_names();
    let p = "member_platform"@;
    let d = "member_platform_account_id"@;
    let u = "member_platform_user_name"@;
    let a = broker::with_text_member(o, p);
    lemma_text_member(o, p, key);
    lemma_text_member(o, p, d);
    lemma_text_member(o, p, u);
    let b = broker::with_text_member(a, d);
    lemma_text_member(a, d, key);
    lemma_text_member(a, d, p);
    lemma_text_member(a, d, u);
    let c = broker::with_text_member(b, u);
    lemma_text_member(b, u, key);
    lemma_text_member(b, u, p);
    lemma_text_member(b, u, d);
    let steam = JsonView::Text("Steam"@);
    let platform = broker::text_or_empty(c, p);
    let dd = if platform.len() == 0 || platform == "1"@ { assoc::with(c, p, steam) } else { c };
    assoc::set_is_found(c, p, steam, key);
    assoc::set_is_found(c, p, steam, d);
    assoc::set_is_found(c, p, steam, u);
    let account = JsonView::Text(broker::account_id(eid));
    let e = if !broker::is_account_id(broker::text_or_empty(dd, d)) {
        assoc::with(dd, d, account)
    } else {
        dd
    };
    assoc::set_is_found(dd, d, account, key);
    assoc::set_is_found(dd, d, account, p);
    assoc::set_is_found(dd, d, account, u);
    let lan = JsonView::Text("LAN"@);
    assoc::set_is_found(e, u, lan, key);
    assoc::set_is_found(e, u, lan, p);
    assoc::set_is_found(e, u, lan, d);
    reveal_strlit("Steam");
    reveal_strlit("1");
    assert("Steam"@.len() != "1"@.len());
    lemma_account(eid);
}

proof fn lemma_text_member(o: Seq<(Seq<char>, JsonView)>, name: Seq<char>, key: Seq<char>)
    ensures
        key != name ==> assoc::lookup(broker::with_text_member(o, name), key) == assoc::lookup(
            o,
            key,
        ),
        (assoc::lookup(o, name) matches Some(JsonView::Text(_))) ==> assoc::lookup(
            broker::with_text_member(o, name),
            name,
        ) == assoc::lookup(o, name),
        assoc::lookup(o, name) is None ==> assoc::lookup(broker::with_text_member(o, name), name)
            is None,
        assoc::distinct(o) ==> assoc::distinct(broker::with_text_member(o, name)),
{
    if let Some(j) = assoc::lookup(o, name) {
        if let Some(t) = crate::lobby_filter::as_text(j) {
            assoc::set_is_found(o, name, JsonView::Text(t), key);
        }
    }
}

pub proof fn lemma_account(eid: Seq<char>)
    ensures
        text::is_number(broker::account_id(eid)),
        text::is_number(eid) ==> broker::account_id(eid) == eid,
{
    let n = broker::account_number(vstd::utf8::encode_utf8(eid));
    text::decimal_is_number(if n == 0 { 1 } else { n as nat });
}

/// An update sets the data that it gives for the member that it names, else for the one that
/// asks: under each name of it stands the last value that is given, a name that is only listed for
/// removal is gone, and every other one has the value that it had. Nobody else's entry changes.
pub proof fn member_data_is_updated(
    l: LobbyState,
    body: JsonView,
    who: Option<Seq<char>>,
    eid: Seq<char>,
    i: int,
    more: Seq<(Seq<char>, JsonView)>,
    key: Seq<char>,
)
    requires
        body.text_field("MemberEntity"@) == Some(eid) || (body.text_field("MemberEntity"@) is None
            && who == Some(eid)),
        body.field("MemberData"@) == Some(JsonView::Object(more)),
        !lists_members(body),
        0 <= i < l.members.len(),
        broker::member_id_of(l.members[i]) == eid,
        forall|j: int| 0 <= j < i ==> broker::member_id_of(#[trigger] l.members[j]) != eid,
        l.members[i] is Object,
        assoc::distinct(broker::object_field(l.members[i], "MemberData"@)),
        !is_description(key),
    ensures
        ({
            let u = lobbies::updated(l, body, who);
            let before = broker::object_field(l.members[i], "MemberData"@);
            let after = broker::object_field(u.members[i], "MemberData"@);
            let told = json::last_of(more, key);
            let gone = lists(body, "MemberDataToDelete"@, "memberDataToDelete"@, key);
            &&& u.members.len() == l.members.len()
            &&& told is Some ==> assoc::lookup(after, key) == told
            &&& told is None && gone ==> assoc::lookup(after, key) is None
            &&& told is None && !gone ==> assoc::lookup(after, key) == assoc::lookup(before, key)
            &&& forall|j: int|
                0 <= j < l.members.len() && j != i ==> #[trigger] u.members[j] == l.members[j]
        }),
{
    broker::lemma_member_place_is(l.members, eid, i);
    let m = l.members[i];
    let gone = lobbies::text_list(body, "MemberDataToDelete"@, "memberDataToDelete"@);
    lemma_lists(body, "MemberDataToDelete"@, "memberDataToDelete"@, key);
    let m2 = if gone.len() == 0 { m } else { lobbies::without_member_data(m, gone) };
    let cut = l.members.update(i, m2);
    lemma_member_data(m, json::without_all(broker::object_field(m, "MemberData"@), gone));
    assert(broker::member_id_of(m2) == eid);
    assert(m2 is Object);
    assert forall|j: int| 0 <= j < i implies broker::member_id_of(#[trigger] cut[j]) != eid by {
        assert(cut[j] == l.members[j]);
    }
    broker::lemma_member_place_is(cut, eid, i);
    assert(l.members.update(i, m) =~= l.members);
    let data = broker::object_field(m2, "MemberData"@);
    json::all_are_removed(broker::object_field(m, "MemberData"@), gone, key);
    if gone.len() == 0 {
        assert(!gone.contains(key));
    }
    json::all_are_set(data, more, key);
    let full = broker::filled(json::with_all(data, more), eid);
    member_is_described(json::with_all(data, more), eid, key, Seq::empty());
    lemma_member_data(m2, full);
    let u = lobbies::updated(l, body, who);
    assert(u.members =~= cut.update(i, broker::with_member_data(m2, full)));
}

proof fn lemma_member_names()
    ensures
        "Id"@ != "MemberEntity"@,
        "Id"@ != "MemberData"@,
        "MemberEntity"@ != "MemberData"@,
{
    reveal_strlit("Id");
    reveal_strlit("MemberEntity");
    reveal_strlit("MemberData");
    assert("Id"@.len() == 2);
    assert("MemberEntity"@.len() == 12);
    assert("MemberData"@.len() == 10);
}

/// An entry whose data is replaced is about the same member and has that data.
proof fn lemma_member_data(m: JsonView, data: Seq<(Seq<char>, JsonView)>)
    requires
        m is Object,
    ensures
        broker::with_member_data(m, data) is Object,
        broker::member_id_of(broker::with_member_data(m, data)) == broker::member_id_of(m),
        broker::object_field(broker::with_member_data(m, data), "MemberData"@) == data,
{
    let o = m->Object_0;
    lemma_member_names();
    assoc::set_is_found(o, "MemberData"@, JsonView::Object(data), "Id"@);
    assoc::set_is_found(o, "MemberData"@, JsonView::Object(data), "MemberEntity"@);
}

/// A new entry is about its member and has the data.
proof fn lemma_member_entry(
    eid: Seq<char>,
    entity: JsonView,
    data: Seq<(Seq<char>, JsonView)>,
)
    ensures
        broker::member_id_of(lobbies::member_entry(eid, entity, data)) == eid,
        lobbies::member_entry(eid, entity, data).field("MemberEntity"@) == Some(entity),
        broker::object_field(lobbies::member_entry(eid, entity, data), "MemberData"@) == data,
{
    let o = lobbies::member_entry(eid, entity, data)->Object_0;
    lemma_member_names();
    assert(o.len() == 3);
    assert(o[0].0 == "Id"@);
    assert(o[1].0 == "MemberEntity"@);
    assert(o[2].0 == "MemberData"@);
    assoc::lemma_place_is(o, "Id"@, 0);
    assoc::lemma_place_is(o, "MemberEntity"@, 1);
    assoc::lemma_place_is(o, "MemberData"@, 2);
}

// Leaving

proof fn lemma_others(members: Seq<JsonView>, eid: Seq<char>)
    ensures
        lobbies::others(members, eid) == members.filter(
            |m: JsonView| broker::member_id_of(m) != eid,
        ),
    decreases members.len(),
{
    let p = |m: JsonView| broker::member_id_of(m) != eid;
    reveal(Seq::filter);
    if members.len() > 0 {
        let t = members.drop_first();
        lemma_others(t, eid);
        assert(members =~= seq![members[0]] + t);
        Seq::filter_distributes_over_add(seq![members[0]], t, p);
        let one = seq![members[0]];
        assert(one.drop_last() =~= Seq::empty());
        assert(one.drop_last().filter(p) =~= Seq::empty());
        assert(one.last() == members[0]);
        assert(one.filter(p) =~= if p(members[0]) { one } else { Seq::empty() });
    } else {
        assert(members =~= Seq::empty());
        assert(members.filter(p) =~= Seq::empty());
    }
}

/// Whoever leaves a lobby takes only themself out of it: the others stay, in their order. It is
/// gone when nobody is left, and nothing but its members and its owner changes.
pub proof fn others_stay(l: LobbyState, eid: Seq<char>)
    requires
        broker::has_member(l.members, eid),
    ensures
        ({
            let stay = l.members.filter(|m: JsonView| broker::member_id_of(m) != eid);
            let after = lobbies::left(l, Some(eid));
            &&& after is None <==> stay.len() == 0
            &&& after is Some ==> after->0.members == stay
            &&& after is Some ==> after->0 == LobbyState {
                members: after->0.members,
                owner: after->0.owner,
                ..l
            }
        }),
{
    lemma_others(l.members, eid);
    let p = |m: JsonView| broker::member_id_of(m) != eid;
    let i = choose|i: int|
        0 <= i < l.members.len() && broker::member_id_of(#[trigger] l.members[i]) == eid;
    let a = l.members.take(i);
    let b = l.members.skip(i);
    assert(l.members =~= a + b);
    Seq::filter_distributes_over_add(a, b, p);
    let one = seq![l.members[i]];
    let c = l.members.skip(i + 1);
    assert(b =~= one + c);
    Seq::filter_distributes_over_add(one, c, p);
    reveal(Seq::filter);
    assert(one.drop_last() =~= Seq::empty());
    assert(one.drop_last().filter(p) =~= Seq::empty());
    assert(one.last() == l.members[i]);
    assert(one.filter(p) =~= Seq::empty());
    a.lemma_filter_len(p);
    c.lemma_filter_len(p);
    assert(l.members.filter(p).len() <= a.len() + c.len());
}

/// The entity that a member entry gives is the member that it is about.
pub open spec fn names_itself(m: JsonView) -> bool {
    match m.field("MemberEntity"@) {
        Some(e) => e.text_field("Id"@) is Some && e.text_field("Id"@)->0.len() > 0
            ==> e.text_field("Id"@)->0 == broker::member_id_of(m),
        None => true,
    }
}

/// When the owner leaves a lobby in which others stay, it passes to one of them under the
/// automatic policy, and it has no owner under any other. When somebody else leaves, its owner
/// stays.
pub proof fn owner_passes_on(l: LobbyState, who: Option<Seq<char>>)
    requires
        lobbies::left(l, who) is Some,
        forall|i: int| 0 <= i < l.members.len() ==> names_itself(#[trigger] l.members[i]),
    ensures
        ({
            let after = lobbies::left(l, who)->0;
            &&& who == Some(l.owner_id()) && l.owner_migration_policy == 1 ==> broker::has_member(
                after.members,
                after.owner_id(),
            ) && after.owner_id() == broker::member_id_of(after.members[0])
            &&& who == Some(l.owner_id()) && l.owner_migration_policy != 1 ==> after.owner
                == JsonView::Null && after.owner_id().len() == 0
            &&& who != Some(l.owner_id()) ==> after.owner == l.owner
        }),
{
    let after = lobbies::left(l, who)->0;
    let m = after.members[0];
    if let Some(eid) = who {
        lemma_others_in(l.members, eid);
    }
    assert(l.members.contains(m));
    assert(names_itself(m));
    let plain = lobbies::plain_entity(broker::member_id_of(m))->Object_0;
    assert(plain[0].0 == "Id"@);
    assoc::lemma_place_is(plain, "Id"@, 0);
}

proof fn lemma_others_in(members: Seq<JsonView>, eid: Seq<char>)
    ensures
        forall|i: int|
            0 <= i < lobbies::others(members, eid).len() ==> members.contains(
                #[trigger] lobbies::others(members, eid)[i],
            ),
    decreases members.len(),
{
    if members.len() > 0 {
        let t = members.drop_first();
        let all = lobbies::others(members, eid);
        let rest = lobbies::others(t, eid);
        lemma_others_in(t, eid);
        assert forall|i: int| 0 <= i < all.len() implies members.contains(#[trigger] all[i]) by {
            let k = i - (all.len() - rest.len());
            if k >= 0 {
                assert(all[i] == rest[k]);
                assert(t.contains(rest[k]));
                let n = choose|n: int| 0 <= n < t.len() && t[n] == rest[k];
                assert(members[n + 1] == rest[k]);
            } else {
                assert(all[i] == members[0]);
            }
        }
    }
}

// Showing

proof fn lemma_shown_names()
    ensures
        "LobbyId"@.len() == 7,
        "ConnectionString"@.len() == 16,
        "Owner"@.len() == 5,
        "OwnerMigrationPolicy"@.len() == 20,
        "MaxPlayers"@.len() == 10,
        "CurrentPlayers"@.len() == 14,
        "MembershipLock"@.len() == 14,
        "AccessPolicy"@.len() == 12,
        "LobbyData"@.len() == 9,
        "SearchData"@.len() == 10,
        "Members"@.len() == 7,
        "LobbyId"@ != "Members"@,
        "MaxPlayers"@ != "SearchData"@,
        "CurrentPlayers"@ != "MembershipLock"@,
{
    reveal_strlit("LobbyId");
    reveal_strlit("ConnectionString");
    reveal_strlit("Owner");
    reveal_strlit("OwnerMigrationPolicy");
    reveal_strlit("MaxPlayers");
    reveal_strlit("CurrentPlayers");
    reveal_strlit("MembershipLock");
    reveal_strlit("AccessPolicy");
    reveal_strlit("LobbyData");
    reveal_strlit("SearchData");
    reveal_strlit("Members");
    assert("LobbyId"@[0] != "Members"@[0]);
    assert("MaxPlayers"@[0] != "SearchData"@[0]);
    assert("CurrentPlayers"@[0] != "MembershipLock"@[0]);
}

/// What is shown of a lobby are its names, its settings, how many are in it and its properties.
pub proof fn lobby_is_shown(l: LobbyState)
    ensures
        ({
            let d = lobbies::shown(l);
            &&& d.text_field("LobbyId"@) == Some(l.id)
            &&& d.text_field("ConnectionString"@) == Some(l.connection)
            &&& d.field("Owner"@) == Some(l.owner)
            &&& d.field("OwnerMigrationPolicy"@) == Some(
                json::int_view(l.owner_migration_policy as int),
            )
            &&& d.field("MaxPlayers"@) == Some(json::int_view(l.max_players as int))
            &&& d.field("CurrentPlayers"@) == Some(json::int_view(l.members.len() as int))
            &&& d.text_field("MembershipLock"@) == Some(l.membership_lock)
            &&& d.text_field("AccessPolicy"@) == Some(l.access_policy)
            &&& d.field("LobbyData"@) == Some(JsonView::Object(l.lobby_data))
            &&& d.field("SearchData"@) == Some(JsonView::Object(l.search_data))
        }),
{
    lemma_shown_names();
    reveal_with_fuel(assoc::place, 12);
}

proof fn lemma_shown_members(l: LobbyState)
    ensures
        lobbies::shown(l).field("Members"@) == Some(
            JsonView::Array(l.members.map_values(|m: JsonView| broker::member_for_client(m))),
        ),
{
    lemma_shown_names();
    let o = lobbies::shown(l)->Object_0;
    assert(o.len() == 11);
    assert(o[10].0 == "Members"@);
    assert(o[0].0 != "Members"@ && o[1].0 != "Members"@ && o[2].0 != "Members"@ && o[3].0
        != "Members"@ && o[4].0 != "Members"@);
    assert(o[5].0 != "Members"@ && o[6].0 != "Members"@ && o[7].0 != "Members"@ && o[8].0
        != "Members"@ && o[9].0 != "Members"@);
    assert forall|j: int| 0 <= j < 10 implies (#[trigger] o[j]).0 != "Members"@ by {
        assert(j == 0 || j == 1 || j == 2 || j == 3 || j == 4 || j == 5 || j == 6 || j == 7 || j
            == 8 || j == 9);
    }
    assoc::lemma_place_is(o, "Members"@, 10);
}

/// Everybody who is in a lobby is shown, in order, each under their own name and with their data,
/// described.
pub proof fn members_are_shown(l: LobbyState, i: int, key: Seq<char>)
    requires
        0 <= i < l.members.len(),
        l.members[i] is Object,
    ensures
        ({
            let listed = lobbies::shown(l).field("Members"@);
            &&& listed matches Some(JsonView::Array(v))
            &&& v.len() == l.members.len()
            &&& broker::member_id_of(v[i]) == broker::member_id_of(l.members[i])
            &&& !is_description(key) ==> assoc::lookup(
                broker::object_field(v[i], "MemberData"@),
                key,
            ) == assoc::lookup(broker::object_field(l.members[i], "MemberData"@), key)
            &&& is_description(key) ==> assoc::lookup(
                broker::object_field(v[i], "MemberData"@),
                key,
            ) is Some
        }),
{
    lemma_shown_members(l);
    let m = l.members[i];
    let data = broker::object_field(m, "MemberData"@);
    let eid = broker::member_id_of(m);
    member_is_described(data, eid, key, Seq::empty());
    lemma_member_data(m, broker::filled(data, eid));
}

// Making

/// A lobby is made with the properties that the request gives, under either spelling, and with the
/// lock and the access that it asks for, else unlocked and public.
pub proof fn lobby_is_made_as_asked(
    a: AppModel,
    body: JsonView,
    p: PlayerModel,
    stamp: Seq<char>,
    now: u64,
    o: Seq<(Seq<char>, JsonView)>,
)
    ensures
        ({
            let id = lobbies::new_lobby_id(p, stamp);
            let found = assoc::lookup(
                lobbies::with_new_lobby(a, body, p, stamp, now).lobbies,
                id,
            );
            let l = found->0;
            let lock = body.text_either("MembershipLock"@, "membershipLock"@);
            let access = body.text_field("AccessPolicy"@);
            let ld = body.either("LobbyData"@, "lobbyData"@);
            let sd = body.either("SearchData"@, "searchData"@);
            &&& found is Some
            &&& l.id == id
            &&& l.connection == "lan."@ + a.title_id + "."@ + l.id
            &&& l.created == now
            &&& ld == Some(JsonView::Object(o)) ==> l.lobby_data == o
            &&& ld is None && body.field("lobbyProperties"@) == Some(JsonView::Object(o))
                ==> l.lobby_data == o
            &&& ld is None && body.field("lobbyProperties"@) is None ==> l.lobby_data.len() == 0
            &&& sd == Some(JsonView::Object(o)) ==> l.search_data == o
            &&& sd is None && body.field("searchProperties"@) == Some(JsonView::Object(o))
                ==> l.search_data == o
            &&& sd is None && body.field("searchProperties"@) is None ==> l.search_data.len() == 0
            &&& l.membership_lock == (if lock is Some { lock->0 } else { "Unlocked"@ })
            &&& l.access_policy == (if access is Some { access->0 } else { "Public"@ })
        }),
{
    let rest = if p.entity_id.len() == 0 {
        a.lobbies
    } else {
        lobbies::not_owned_by(a.lobbies, p.entity_id)
    };
    let l = lobbies::new_lobby(a, body, p, stamp, now);
    assoc::set_is_found(rest, l.id, l, l.id);
}

/// A lobby is made for as many players as the request asks for, within the limits, unless the
/// broker insists on its own number or the request has no wish.
pub proof fn lobby_is_made_for_as_many(
    a: AppModel,
    body: JsonView,
    p: PlayerModel,
    stamp: Seq<char>,
    now: u64,
)
    ensures
        ({
            let l = lobbies::new_lobby(a, body, p, stamp, now);
            let asked = body.integer_either("MaxPlayers"@, "maxPlayers"@);
            let least = broker::MIN_PLAYERS as int;
            let most = broker::MAX_PLAYERS_CEILING as int;
            &&& least <= l.max_players <= most
            &&& !a.override_game_max && asked is Some && least <= asked->0 <= most
                ==> l.max_players == asked->0
            &&& !a.override_game_max && asked is Some && asked->0 > most ==> l.max_players == most
            &&& !a.override_game_max && asked is Some && asked->0 < least ==> l.max_players
                == least
            &&& (a.override_game_max || asked is None) && least <= a.max_players <= most
                ==> l.max_players == a.max_players
        }),
{
}

/// What happens when the owner of a lobby leaves is what the request that made it asks for, by
/// name or by number.
pub proof fn lobby_is_made_with_a_policy(
    a: AppModel,
    body: JsonView,
    p: PlayerModel,
    stamp: Seq<char>,
    now: u64,
    n: nat,
)
    ensures
        ({
            let l = lobbies::new_lobby(a, body, p, stamp, now);
            let asked = body.either("OwnerMigrationPolicy"@, "ownerMigrationPolicy"@);
            &&& asked == Some(json::int_view(n as int)) && n <= 3 ==> l.owner_migration_policy == n
            &&& asked matches Some(JsonView::Text(t)) ==> (text::lowered(t) == "automatic"@
                ==> l.owner_migration_policy == 1)
            &&& asked matches Some(JsonView::Text(t)) ==> (text::lowered(t) == "manual"@
                ==> l.owner_migration_policy == 2)
            &&& asked matches Some(JsonView::Text(t)) ==> (text::lowered(t) == "server"@
                ==> l.owner_migration_policy == 3)
            &&& asked is None ==> l.owner_migration_policy == 0
        }),
{
    text::decimal_is_number(n);
    assert(text::is_digit(text::decimal(n)[0]));
    reveal_strlit("automatic");
    reveal_strlit("manual");
    reveal_strlit("server");
    assert("automatic"@.len() == 9 && "manual"@.len() == 6 && "server"@.len() == 6);
    assert("manual"@[0] != "server"@[0]);
}

/// An entry of a request is about an entity.
pub open spec fn names_founder(m: JsonView, eid: Seq<char>) -> bool {
    match m.either("MemberEntity"@, "memberEntity"@) {
        Some(e) => e.text_field("Id"@) == Some(eid),
        None => false,
    }
}

/// A lobby is made with one member, who founds it: the one that the request lists first, else its
/// owner; the owner is the one that the request names, else the account that asks. The data of the
/// founder is what the request gives, and what it gives by itself goes before what it lists.
pub proof fn lobby_is_made_with_its_founder(
    a: AppModel,
    body: JsonView,
    p: PlayerModel,
    stamp: Seq<char>,
    now: u64,
    eid: Seq<char>,
    key: Seq<char>,
)
    ensures
        ({
            let l = lobbies::new_lobby(a, body, p, stamp, now);
            let owner = body.either("Owner"@, "owner"@);
            let listed = body.either("Members"@, "members"@);
            let nobody = listed is None || listed == Some(JsonView::Array(Seq::empty()));
            let data = broker::object_field(l.members[0], "MemberData"@);
            let own = json::last_of(broker::object_field(body, "MemberData"@), key);
            &&& l.members.len() == 1
            &&& owner is Some ==> l.owner == owner->0
            &&& owner is None ==> l.owner_id() == p.entity_id
            &&& nobody && owner is None ==> broker::member_id_of(l.members[0]) == p.entity_id
            &&& nobody && owner is Some && owner->0.text_field("Id"@) == Some(eid)
                ==> broker::member_id_of(l.members[0]) == eid
            &&& listed matches Some(JsonView::Array(v)) ==> (v.len() > 0 && names_founder(v[0], eid)
                ==> broker::member_id_of(l.members[0]) == eid)
            &&& !is_description(key) && own is Some ==> assoc::lookup(data, key) == own
            &&& !is_description(key) && own is None && nobody ==> assoc::lookup(data, key) is None
            &&& !is_description(key) && own is None ==> (listed matches Some(JsonView::Array(v))
                ==> (v.len() > 0 ==> assoc::lookup(data, key) == assoc::lookup(
                given(v[0], "MemberData"@, "memberData"@),
                key,
            )))
        }),
{
    let l = lobbies::new_lobby(a, body, p, stamp, now);
    let entity = lobbies::founder_entity(body, p);
    let mid = lobbies::or_text(entity.text_field("Id"@), p.entity_id);
    let data = lobbies::founder_data(body);
    let full = broker::filled(data, mid);
    lemma_member_entry(mid, entity, full);
    member_is_described(data, mid, key, Seq::empty());
    assert(l.members[0] == lobbies::member_entry(mid, entity, full));
    let view = broker::entity_view(p)->Object_0;
    assert(view[0].0 == "Id"@);
    assoc::lemma_place_is(view, "Id"@, 0);
    let list = match lobbies::first_member(body) {
        Some(m) => given(m, "MemberData"@, "memberData"@),
        None => Seq::empty(),
    };
    json::all_are_set(list, broker::object_field(body, "MemberData"@), key);
    assert(data == json::with_all(list, broker::object_field(body, "MemberData"@)));
}

/// Making a lobby leaves those of others alone.
pub proof fn other_lobbies_stay(
    a: AppModel,
    body: JsonView,
    p: PlayerModel,
    stamp: Seq<char>,
    now: u64,
    i: int,
)
    requires
        assoc::distinct(a.lobbies),
        0 <= i < a.lobbies.len(),
        a.lobbies[i].1.owner_id() != p.entity_id,
        a.lobbies[i].0 != lobbies::new_lobby_id(p, stamp),
    ensures
        assoc::lookup(
            lobbies::with_new_lobby(a, body, p, stamp, now).lobbies,
            a.lobbies[i].0,
        ) == Some(a.lobbies[i].1),
{
    let key = a.lobbies[i].0;
    let l = lobbies::new_lobby(a, body, p, stamp, now);
    let rest = if p.entity_id.len() == 0 {
        a.lobbies
    } else {
        lobbies::not_owned_by(a.lobbies, p.entity_id)
    };
    lobbies::lemma_not_owned_by(a.lobbies, p.entity_id);
    lemma_not_owned_keeps(a.lobbies, p.entity_id, i);
    assert(rest.contains(a.lobbies[i]));
    let k = choose|k: int| 0 <= k < rest.len() && rest[k] == a.lobbies[i];
    assert forall|j: int| 0 <= j < k implies (#[trigger] rest[j]).0 != key by {
        assert(rest[k].0 == key);
    }
    assoc::lemma_place_is(rest, key, k);
    assoc::set_is_found(rest, l.id, l, key);
}

proof fn lemma_not_owned_keeps(
    all: Seq<(Seq<char>, LobbyState)>,
    eid: Seq<char>,
    i: int,
)
    requires
        0 <= i < all.len(),
        all[i].1.owner_id() != eid,
    ensures
        lobbies::not_owned_by(all, eid).contains(all[i]),
    decreases all.len(),
{
    let t = all.drop_first();
    let kept = lobbies::not_owned_by(all, eid);
    let rest = lobbies::not_owned_by(t, eid);
    if i == 0 {
        assert(kept[0] == all[0]);
    } else {
        lemma_not_owned_keeps(t, eid, i - 1);
        let k = choose|k: int| 0 <= k < rest.len() && rest[k] == all[i];
        assert(kept[k + (kept.len() - rest.len())] == all[i]);
    }
}

// Joining

/// A connection string leads into the lobby that has it: whoever has room there, or is in it
/// already, is in it afterwards, and the answer names the lobby; when it is full the answer is 409.
/// No other lobby changes.
pub proof fn connection_leads_in(
    a: AppModel,
    body: JsonView,
    headers: Seq<(Seq<char>, Seq<char>)>,
    i: int,
    eid: Seq<char>,
)
    requires
        0 <= i < a.lobbies.len(),
        body.text_either("ConnectionString"@, "connectionString"@) == Some(
            a.lobbies[i].1.connection,
        ),
        forall|j: int|
            0 <= j < i ==> (#[trigger] a.lobbies[j]).1.connection != a.lobbies[i].1.connection,
        body.field("MemberEntity"@) is Some,
        body.field("MemberEntity"@)->0.text_field("Id"@) == Some(eid),
        forall|k: int|
            0 <= k < a.lobbies[i].1.members.len() ==> #[trigger] a.lobbies[i].1.members[k] is Object,
    ensures
        ({
            let (b, r) = lobbies::join(a, body, headers);
            let l = a.lobbies[i].1;
            let room = broker::has_member(l.members, eid) || l.members.len() < l.max_players;
            let data = r.body.field("data"@);
            &&& b.lobbies.len() == a.lobbies.len()
            &&& forall|j: int|
                0 <= j < a.lobbies.len() && (j != i || !room) ==> #[trigger] b.lobbies[j]
                    == a.lobbies[j]
            &&& room ==> r.status == 200 && broker::has_member(b.lobbies[i].1.members, eid)
            &&& room ==> data is Some && data->0.text_field("LobbyId"@) == Some(l.id)
                && data->0.field("MaxPlayers"@) == Some(json::int_view(l.max_players as int))
            &&& room ==> b.lobbies[i].0 == a.lobbies[i].0 && b.lobbies[i].1 == (LobbyState {
                members: b.lobbies[i].1.members,
                ..l
            })
            &&& !room ==> r.status == 409
        }),
{
    lemma_connection_is(a.lobbies, a.lobbies[i].1.connection, i);
    let l = a.lobbies[i].1;
    let entity = body.field("MemberEntity"@)->0;
    let data = broker::object_field(body, "MemberData"@);
    broker::lemma_member_place(l.members, eid);
    let b = lobbies::join(a, body, headers).0;
    let l2 = b.lobbies[i].1;
    reveal_strlit("LobbyMemberLimitExceeded");
    reveal_strlit("LobbyNotFound");
    assert("LobbyMemberLimitExceeded"@.len() != "LobbyNotFound"@.len());
    lemma_ok_reply(
        JsonView::Object(
            seq![
                ("LobbyId"@, JsonView::Text(l.id)),
                ("MaxPlayers"@, json::int_view(l.max_players as int)),
            ],
        ),
    );
    lemma_shown_names();
    reveal_with_fuel(assoc::place, 3);
    match broker::member_place(l.members, eid) {
        Some(k) => {
            assert(l.members[k] is Object);
            let merged = json::with_all(
                broker::object_field(l.members[k], "MemberData"@),
                data,
            );
            lemma_member_data(l.members[k], broker::filled(merged, eid));
            assert(broker::member_id_of(l2.members[k]) == eid);
        },
        None => {
            if l.members.len() < l.max_players {
                lemma_member_entry(eid, entity, broker::filled(data, eid));
                assert(broker::member_id_of(l2.members[l.members.len() as int]) == eid);
            }
        },
    }
}

proof fn lemma_connection_is(all: Seq<(Seq<char>, LobbyState)>, c: Seq<char>, i: int)
    requires
        0 <= i < all.len(),
        all[i].1.connection == c,
        forall|j: int| 0 <= j < i ==> (#[trigger] all[j]).1.connection != c,
    ensures
        lobbies::connection_place(all, c) == Some(i),
    decreases i,
{
    if i > 0 {
        lemma_connection_is(all.drop_first(), c, i - 1);
    }
}

/// An answer that succeeds holds its data.
proof fn lemma_ok_reply(d: JsonView)
    ensures
        broker::ok_reply(d).status == 200,
        broker::ok_reply(d).body.field("data"@) == Some(d),
{
    reveal_strlit("code");
    reveal_strlit("status");
    reveal_strlit("data");
    let o = broker::ok_reply(d).body->Object_0;
    assert("code"@[0] != "data"@[0]);
    assert("status"@.len() != "data"@.len());
    assert(o[0].0 == "code"@ && o[1].0 == "status"@ && o[2].0 == "data"@);
    assoc::lemma_place_is(o, "data"@, 2);
}

/// No lobby is entered by a connection string that none has.
pub proof fn unknown_connection_leads_nowhere(
    a: AppModel,
    body: JsonView,
    headers: Seq<(Seq<char>, Seq<char>)>,
    c: Seq<char>,
)
    requires
        body.text_either("ConnectionString"@, "connectionString"@) == Some(c),
        forall|j: int| 0 <= j < a.lobbies.len() ==> (#[trigger] a.lobbies[j]).1.connection != c,
    ensures
        lobbies::join(a, body, headers).1.status == 404,
        lobbies::join(a, body, headers).0.lobbies == a.lobbies,
{
    lobbies::lemma_connection_place(a.lobbies, c);
}

/// Whoever joins brings the data that the request gives: under each name of it stands what was
/// given, and of somebody who was in before every other name keeps its value.
pub proof fn joining_brings_data(
    l: LobbyState,
    eid: Seq<char>,
    entity: JsonView,
    data: Seq<(Seq<char>, JsonView)>,
    key: Seq<char>,
)
    requires
        lobbies::joined(l, eid, entity, data) is Some,
        forall|k: int| 0 <= k < l.members.len() ==> #[trigger] l.members[k] is Object,
        assoc::distinct(data),
        !is_description(key),
    ensures
        ({
            let after = lobbies::joined(l, eid, entity, data)->0;
            let was = broker::member_place(l.members, eid);
            let at = if was is Some { was->0 } else { l.members.len() as int };
            let found = assoc::lookup(broker::object_field(after.members[at], "MemberData"@), key);
            let told = assoc::lookup(data, key);
            &&& broker::member_id_of(after.members[at]) == eid
            &&& was is None ==> found == told && after.members[at].field("MemberEntity"@) == Some(
                entity,
            )
            &&& was is Some && told is Some ==> found == told
            &&& was is Some && told is None ==> found == assoc::lookup(
                broker::object_field(l.members[at], "MemberData"@),
                key,
            )
            &&& forall|j: int|
                0 <= j < l.members.len() && j != at ==> #[trigger] after.members[j] == l.members[j]
        }),
{
    broker::lemma_member_place(l.members, eid);
    lemma_last_is_only(data, key);
    match broker::member_place(l.members, eid) {
        Some(k) => {
            assert(l.members[k] is Object);
            let before = broker::object_field(l.members[k], "MemberData"@);
            let merged = json::with_all(before, data);
            json::all_are_set(before, data, key);
            member_is_described(merged, eid, key, Seq::empty());
            lemma_member_data(l.members[k], broker::filled(merged, eid));
        },
        None => {
            member_is_described(data, eid, key, Seq::empty());
            lemma_member_entry(eid, entity, broker::filled(data, eid));
        },
    }
}

/// Where names are distinct the last value of a name is the only one.
proof fn lemma_last_is_only(o: Seq<(Seq<char>, JsonView)>, key: Seq<char>)
    requires
        assoc::distinct(o),
    ensures
        json::last_of(o, key) == assoc::lookup(o, key),
    decreases o.len(),
{
    assoc::lemma_place(o, key);
    if o.len() > 0 {
        let t = o.drop_last();
        lemma_last_is_only(t, key);
        assoc::lemma_place(t, key);
        if o.last().0 == key {
            assoc::lemma_place_is(o, key, o.len() - 1);
        } else if let Some(i) = assoc::place(t, key) {
            assoc::lemma_place_is(o, key, i);
        } else if let Some(i) = assoc::place(o, key) {
            assert(t[i] == o[i]);
        }
    }
}

// One lobby among others

/// Updating or leaving one lobby changes no other.
pub proof fn requests_touch_one_lobby(
    a: AppModel,
    body: JsonView,
    headers: Seq<(Seq<char>, Seq<char>)>,
    other: Seq<char>,
)
    requires
        assoc::distinct(a.lobbies),
        body.text_either("LobbyId"@, "lobbyId"@) != Some(other),
        other.len() > 0,
    ensures
        assoc::lookup(lobbies::update(a, body, headers).lobbies, other) == assoc::lookup(
            a.lobbies,
            other,
        ),
        assoc::lookup(lobbies::leave(a, body, headers).lobbies, other) == assoc::lookup(
            a.lobbies,
            other,
        ),
{
    let id = lobbies::or_text(body.text_either("LobbyId"@, "lobbyId"@), Seq::empty());
    assoc::lemma_place(a.lobbies, id);
    if let Some(i) = assoc::place(a.lobbies, id) {
        let u = lobbies::updated(a.lobbies[i].1, body, a.requester(body, headers));
        assert(assoc::with(a.lobbies, id, u) =~= lobbies::update(a, body, headers).lobbies);
        assoc::set_is_found(a.lobbies, id, u, other);
        match lobbies::left(a.lobbies[i].1, a.requester(body, headers)) {
            Some(l) => {
                assert(assoc::with(a.lobbies, id, l) =~= lobbies::leave(a, body, headers).lobbies);
                assoc::set_is_found(a.lobbies, id, l, other);
            },
            None => {
                assert(assoc::without(a.lobbies, id) =~= lobbies::leave(a, body, headers).lobbies);
                assoc::removed_is_gone(a.lobbies, id, other);
            },
        }
    }
}

/// A request to leave a lobby takes the one who asks out of that lobby.
pub proof fn leaving_is_seen(
    a: AppModel,
    body: JsonView,
    headers: Seq<(Seq<char>, Seq<char>)>,
    id: Seq<char>,
    eid: Seq<char>,
)
    requires
        assoc::distinct(a.lobbies),
        body.text_either("LobbyId"@, "lobbyId"@) == Some(id),
        a.requester(body, headers) == Some(eid),
    ensures
        assoc::lookup(lobbies::leave(a, body, headers).lobbies, id) is Some ==> !broker::has_member(
            assoc::lookup(lobbies::leave(a, body, headers).lobbies, id)->0.members,
            eid,
        ),
{
    assoc::lemma_place(a.lobbies, id);
    if let Some(i) = assoc::place(a.lobbies, id) {
        lobbies::leaver_is_gone(a.lobbies[i].1, eid);
        match lobbies::left(a.lobbies[i].1, a.requester(body, headers)) {
            Some(l) => {
                assert(assoc::with(a.lobbies, id, l) =~= lobbies::leave(a, body, headers).lobbies);
                assoc::set_is_found(a.lobbies, id, l, id);
            },
            None => {
                assert(assoc::without(a.lobbies, id) =~= lobbies::leave(a, body, headers).lobbies);
                assoc::removed_is_gone(a.lobbies, id, id);
            },
        }
    }
}

/// A lobby is shown to whoever asks for it by its name, and a name that no lobby has is answered
/// with 404.
pub proof fn lobby_is_found_by_name(a: AppModel, ask: JsonView, id: Seq<char>)
    requires
        ask.text_either("LobbyId"@, "lobbyId"@) == Some(id),
    ensures
        ({
            let r = lobbies::get(a, ask);
            &&& assoc::lookup(a.lobbies, id) matches Some(l) ==> r.status == 200 && r.body.field(
                "data"@,
            ) == Some(lobbies::shown(l))
            &&& assoc::lookup(a.lobbies, id) is None ==> r.status == 404
        }),
{
    if let Some(l) = assoc::lookup(a.lobbies, id) {
        lemma_ok_reply(lobbies::shown(l));
    }
}

// Members that an update lists

/// A member that an update lists is in the lobby afterwards, where it was before or there is room;
/// it is described by the data that is listed. The others stay, and an entry that names nobody
/// changes nothing.
pub proof fn listed_member_is_taken_up(l: LobbyState, m: JsonView, other: Seq<char>)
    requires
        forall|k: int| 0 <= k < l.members.len() ==> #[trigger] l.members[k] is Object,
    ensures
        ({
            let eid = broker::member_id_of(m);
            let after = lobbies::told_of(l, m);
            let was = broker::has_member(l.members, eid);
            &&& eid.len() == 0 ==> after == l
            &&& eid.len() > 0 && !was && l.members.len() >= l.max_players ==> after == l
            &&& eid.len() > 0 && !was && l.members.len() < l.max_players ==> after.members.len()
                == l.members.len() + 1 && broker::member_id_of(after.members.last()) == eid
                && after.members.drop_last() == l.members
            &&& eid.len() > 0 && was ==> after.members.len() == l.members.len()
            &&& after == LobbyState { members: after.members, ..l }
        }),
{
    let eid = broker::member_id_of(m);
    broker::lemma_member_place(l.members, eid);
    let data = broker::filled(broker::object_field(m, "MemberData"@), eid);
    let entity = match m.field("MemberEntity"@) {
        Some(e) => e,
        None => lobbies::plain_entity(eid),
    };
    lemma_member_entry(eid, entity, data);
    if eid.len() > 0 && !broker::has_member(l.members, eid) && l.members.len() < l.max_players {
        assert(lobbies::told_of(l, m).members.drop_last() =~= l.members);
    }
}

/// The data that an update lists for a member stands in its entry: under each name what is listed.
pub proof fn listed_data_is_taken_up(l: LobbyState, m: JsonView, k: int, key: Seq<char>)
    requires
        0 <= k < l.members.len(),
        l.members[k] is Object,
        broker::member_id_of(m).len() > 0,
        broker::member_place(l.members, broker::member_id_of(m)) == Some(k),
        !is_description(key),
    ensures
        ({
            let after = lobbies::told_of(l, m).members[k];
            &&& assoc::lookup(broker::object_field(after, "MemberData"@), key) == assoc::lookup(
                broker::object_field(m, "MemberData"@),
                key,
            )
            &&& m.field("MemberEntity"@) is Some ==> after.field("MemberEntity"@) == m.field(
                "MemberEntity"@,
            )
        }),
{
    let eid = broker::member_id_of(m);
    let own = broker::object_field(m, "MemberData"@);
    let data = broker::filled(own, eid);
    let entity = match m.field("MemberEntity"@) {
        Some(e) => e,
        None => lobbies::plain_entity(eid),
    };
    member_is_described(own, eid, key, Seq::empty());
    lemma_member_names();
    let o = l.members[k]->Object_0;
    let a = assoc::with(o, "MemberData"@, JsonView::Object(data));
    assoc::set_is_found(o, "MemberData"@, JsonView::Object(data), "MemberEntity"@);
    assoc::set_is_found(a, "MemberEntity"@, entity, "MemberData"@);
}

/// Somebody who is not in a lobby of two or more leaves it as it is, and so does a request that
/// names nobody.
pub proof fn stranger_leaves_nothing(l: LobbyState, who: Option<Seq<char>>)
    requires
        l.members.len() >= 2,
        who is None || (!broker::has_member(l.members, who->0) && who->0 != l.owner_id()),
    ensures
        lobbies::left(l, who) == Some(l),
{
    if let Some(eid) = who {
        lemma_others(l.members, eid);
        let p = |m: JsonView| broker::member_id_of(m) != eid;
        lemma_all_stay(l.members, p);
    }
}

proof fn lemma_all_stay(v: Seq<JsonView>, p: spec_fn(JsonView) -> bool)
    requires
        forall|i: int| 0 <= i < v.len() ==> p(#[trigger] v[i]),
    ensures
        v.filter(p) == v,
    decreases v.len(),
{
    reveal(Seq::filter);
    if v.len() > 0 {
        let t = v.drop_last();
        assert forall|i: int| 0 <= i < t.len() implies p(#[trigger] t[i]) by {
            assert(t[i] == v[i]);
        }
        lemma_all_stay(t, p);
        assert(p(v[v.len() - 1]));
        assert(t.push(v.last()) =~= v);
    }
}

// Names

/// A lobby goes by the name of its leader that it gives, else by that of the leader's platform;
/// where it gives neither and its owner has no name, it is `LAN`.
pub proof fn lobby_goes_by_its_leader(l: LobbyState, t: Seq<char>)
    requires
        t.len() > 0,
        text::trimmed(t) == t,
    ensures
        assoc::lookup(l.lobby_data, "leader_name"@) == Some(JsonView::Text(t)) ==> l.display_name()
            == t,
        assoc::lookup(l.lobby_data, "leader_name"@) is None && assoc::lookup(
            l.lobby_data,
            "leader_platform_user_name"@,
        ) == Some(JsonView::Text(t)) ==> l.display_name() == t,
        assoc::lookup(l.lobby_data, "leader_name"@) is None && assoc::lookup(
            l.lobby_data,
            "leader_platform_user_name"@,
        ) is None && l.owner_id().len() == 0 ==> l.display_name() == "LAN"@,
        assoc::lookup(l.lobby_data, "leader_name"@) is None && assoc::lookup(
            l.lobby_data,
            "leader_platform_user_name"@,
        ) is None && l.owner_id().len() > 0 && l.members.len() > 0 && broker::member_id_of(
            l.members[0],
        ) == l.owner_id() && assoc::lookup(
            broker::object_field(l.members[0], "MemberData"@),
            "member_platform_user_name"@,
        ) == Some(JsonView::Text(t)) ==> l.display_name() == t,
{
}

/// A login without a ticket is an account of its own, the same each time.
pub proof fn login_without_a_ticket()
    ensures
        broker::player_of(Seq::empty()) == broker::player_of("empty"@),
{
    reveal_strlit("empty");
}

}
